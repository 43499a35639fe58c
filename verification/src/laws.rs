//! Laws that relate the functions of the library.
use vstd::prelude::*;
use crate::parse::{is_name_part, spec_parse_eval_entry, spec_parse_eval_entry_inner, EvalView, comment_text, comment_texts, first_from, first_run, go_comment_block, go_comment_pred, go_package_pred, is_package_line, comment_run_start, is_go_comment, negated, rust_doc_pred, spec_extract_harness, spec_go_doc, python_code_start, spec_python_doc, spec_rust_doc, spec_jsdoc, jsdoc_line_text, uses_jsdoc, docstring_with, Language, empty_harness, harness_fold, harness_step, spec_parse_harness_sections, HarnessView, Section};
use crate::eval::{all_digits, annotation_args, first_dot, first_exp, is_decimal, is_digit, is_exponent, is_float_literal, spec_parse_eval_type, spec_parse_u32, split_bounds, unsigned_digits, unsigned_part, EvalTypeView};
use crate::text::{trim_start_matches, trim_end_char, ascii_lower_code, eq_ignore_ascii_case, find, find_from, lemma_find_occurs, occurs_at, starts_with, is_ws, join, lines, lines_after, strip_cr, trim, trim_end, trim_start};

verus! {

broadcast use vstd::seq_lib::group_seq_properties;

/// Every char of `w` is whitespace.
pub open spec fn all_ws(w: Seq<char>) -> bool {
    forall|i: int| 0 <= i < w.len() ==> is_ws(#[trigger] w[i])
}

proof fn lemma_trim_start_append(x: Seq<char>, w: Seq<char>)
    ensures
        trim_start(x + w) == (if trim_start(x).len() > 0 {
            trim_start(x) + w
        } else {
            trim_start(w)
        }),
    decreases x.len(),
{
    if x.len() == 0 {
        assert(x + w =~= w);
    } else if is_ws(x[0]) {
        assert((x + w).drop_first() =~= x.drop_first() + w);
        lemma_trim_start_append(x.drop_first(), w);
    }
}

proof fn lemma_trim_start_all_ws(w: Seq<char>)
    requires
        all_ws(w),
    ensures
        trim_start(w).len() == 0,
    decreases w.len(),
{
    if w.len() > 0 {
        lemma_trim_start_all_ws(w.drop_first());
    }
}

proof fn lemma_trim_end_append_ws(z: Seq<char>, w: Seq<char>)
    requires
        all_ws(w),
    ensures
        trim_end(z + w) == trim_end(z),
    decreases w.len(),
{
    if w.len() == 0 {
        assert(z + w =~= z);
    } else {
        assert((z + w).drop_last() =~= z + w.drop_last());
        lemma_trim_end_append_ws(z, w.drop_last());
    }
}

/// Whitespace after the end of a text does not change its trim.
pub(crate) proof fn lemma_trim_append_ws(x: Seq<char>, w: Seq<char>)
    requires
        all_ws(w),
    ensures
        trim(x + w) == trim(x),
{
    lemma_trim_start_append(x, w);
    if trim_start(x).len() > 0 {
        lemma_trim_end_append_ws(trim_start(x), w);
    } else {
        lemma_trim_start_all_ws(w);
        assert(trim_start(x) =~= trim_start(w));
    }
}

proof fn lemma_trim_end_shape(z: Seq<char>)
    ensures
        trim_end(z).len() <= z.len(),
        trim_end(z) == z.take(trim_end(z).len() as int),
        all_ws(z.skip(trim_end(z).len() as int)),
        trim_end(z).len() == 0 || !is_ws(trim_end(z).last()),
    decreases z.len(),
{
    if z.len() > 0 && is_ws(z.last()) {
        lemma_trim_end_shape(z.drop_last());
        let k = trim_end(z).len() as int;
        assert(z.drop_last().take(k) =~= z.take(k));
        assert forall|i: int| 0 <= i < z.skip(k).len() implies is_ws(#[trigger] z.skip(k)[i]) by {
            if i < z.skip(k).len() - 1 {
                assert(z.skip(k)[i] == z.drop_last().skip(k)[i]);
            }
        }
    } else {
        assert(z.take(z.len() as int) =~= z);
    }
}

proof fn lemma_trim_start_shape(z: Seq<char>)
    ensures
        trim_start(z).len() == 0 || !is_ws(trim_start(z)[0]),
    decreases z.len(),
{
    if z.len() > 0 && is_ws(z[0]) {
        lemma_trim_start_shape(z.drop_first());
    }
}

/// Trimming twice is trimming once.
proof fn lemma_trim_idempotent(x: Seq<char>)
    ensures
        trim(trim(x)) == trim(x),
{
    let s = trim_start(x);
    let t = trim_end(s);
    lemma_trim_start_shape(x);
    lemma_trim_end_shape(s);
    if t.len() > 0 {
        assert(t[0] == s[0]);
    }
    assert(trim_start(t) == t);
    assert(trim_end(t) == t);
}

/// Trailing whitespace does not change a trim.
proof fn lemma_trim_trim_end(y: Seq<char>)
    ensures
        trim(trim_end(y)) == trim(y),
{
    lemma_trim_end_shape(y);
    let k = trim_end(y).len() as int;
    assert(y =~= y.take(k) + y.skip(k));
    lemma_trim_append_ws(y.take(k), y.skip(k));
}

/// No item of `xs` holds a newline.
pub open spec fn no_newlines(xs: Seq<Seq<char>>) -> bool {
    forall|i: int| 0 <= i < xs.len() ==> !(#[trigger] xs[i]).contains('\n')
}

/// Splitting after a newline splits the lines.
pub(crate) proof fn lemma_lines_after_append(a: Seq<char>, b: Seq<char>, cur: Seq<char>)
    requires
        a.len() > 0,
        a.last() == '\n',
    ensures
        lines_after(a + b, cur) == lines_after(a, cur) + lines_after(b, Seq::empty()),
    decreases a.len(),
{
    assert((a + b)[0] == a[0]);
    assert((a + b).drop_first() =~= a.drop_first() + b);
    if a.len() == 1 {
        assert(a.drop_first() + b =~= b);
        assert(a.drop_first() =~= Seq::<char>::empty());
        let first = seq![strip_cr(cur)];
        assert(a[0] == '\n');
        assert(lines_after(Seq::<char>::empty(), Seq::<char>::empty()) =~= Seq::<Seq<char>>::empty());
        assert(lines_after(a, cur) == first + Seq::<Seq<char>>::empty());
        assert(first + Seq::<Seq<char>>::empty() =~= first);
    } else if a[0] == '\n' {
        lemma_lines_after_append(a.drop_first(), b, Seq::empty());
        let first = seq![strip_cr(cur)];
        let x = lines_after(a.drop_first(), Seq::empty());
        let y = lines_after(b, Seq::empty());
        assert(first + (x + y) =~= (first + x) + y);
    } else {
        lemma_lines_after_append(a.drop_first(), b, cur.push(a[0]));
    }
}

/// The lines of text with no newline.
pub(crate) proof fn lemma_lines_after_no_newline(s: Seq<char>, cur: Seq<char>)
    requires
        !s.contains('\n'),
    ensures
        lines_after(s, cur) == (if (cur + s).len() == 0 {
            Seq::<Seq<char>>::empty()
        } else {
            seq![cur + s]
        }),
        lines_after(s + seq!['\n'], cur) == seq![strip_cr(cur + s)],
    decreases s.len(),
{
    if s.len() == 0 {
        assert(cur + s =~= cur);
        assert(s + seq!['\n'] =~= seq!['\n']);
        assert(seq!['\n'].drop_first() =~= Seq::<char>::empty());
        assert(lines_after(Seq::<char>::empty(), Seq::<char>::empty()) =~= Seq::<Seq<char>>::empty());
        assert(seq!['\n'][0] == '\n');
        assert(seq![strip_cr(cur)] + Seq::<Seq<char>>::empty() =~= seq![strip_cr(cur)]);
    } else {
        assert((s + seq!['\n'])[0] == s[0]);
        assert(s[0] != '\n') by {
            assert(s.contains(s[0]));
        }
        assert(!s.drop_first().contains('\n')) by {
            assert forall|i: int| 0 <= i < s.drop_first().len() implies s.drop_first()[i] != '\n' by {
                assert(s[i + 1] == s.drop_first()[i]);
                if s[i + 1] == '\n' {
                    assert(s.contains('\n'));
                }
            }
        }
        lemma_lines_after_no_newline(s.drop_first(), cur.push(s[0]));
        assert(cur.push(s[0]) + s.drop_first() =~= cur + s);
        assert((s + seq!['\n']).drop_first() =~= s.drop_first() + seq!['\n']);
    }
}

/// The lines of newline-free lines, each followed by a newline.
proof fn lemma_lines_join_newline(ys: Seq<Seq<char>>)
    requires
        ys.len() > 0,
        no_newlines(ys),
    ensures
        lines(join(ys, seq!['\n']) + seq!['\n']) == ys.map_values(|y: Seq<char>| strip_cr(y)),
    decreases ys.len(),
{
    if ys.len() == 1 {
        lemma_lines_after_no_newline(ys[0], Seq::empty());
        assert(Seq::<char>::empty() + ys[0] =~= ys[0]);
        assert(ys.map_values(|y: Seq<char>| strip_cr(y)) =~= seq![strip_cr(ys[0])]);
    } else {
        let d = ys.drop_last();
        assert(no_newlines(d)) by {
            assert forall|i: int| 0 <= i < d.len() implies !(#[trigger] d[i]).contains('\n') by {
                assert(d[i] == ys[i]);
            }
        }
        lemma_lines_join_newline(d);
        let a = join(d, seq!['\n']) + seq!['\n'];
        let b = ys.last() + seq!['\n'];
        assert(join(ys, seq!['\n']) + seq!['\n'] =~= a + b);
        lemma_lines_after_append(a, b, Seq::empty());
        assert(!ys.last().contains('\n')) by {
            assert(ys.last() == ys[ys.len() - 1]);
        }
        lemma_lines_after_no_newline(ys.last(), Seq::empty());
        assert(Seq::<char>::empty() + ys.last() =~= ys.last());
        assert(ys.map_values(|y: Seq<char>| strip_cr(y)) =~= d.map_values(|y: Seq<char>| strip_cr(y)).push(strip_cr(ys.last())));
    }
}

/// The lines of newline-free lines joined with newlines.
proof fn lemma_lines_join(ys: Seq<Seq<char>>)
    requires
        ys.len() > 0,
        no_newlines(ys),
    ensures
        lines(join(ys, seq!['\n'])) == ys.drop_last().map_values(|y: Seq<char>| strip_cr(y)) + (
        if ys.last().len() == 0 {
            Seq::<Seq<char>>::empty()
        } else {
            seq![ys.last()]
        }),
{
    assert(!ys.last().contains('\n')) by {
        assert(ys.last() == ys[ys.len() - 1]);
    }
    lemma_lines_after_no_newline(ys.last(), Seq::empty());
    assert(Seq::<char>::empty() + ys.last() =~= ys.last());
    if ys.len() == 1 {
        assert(ys.drop_last().map_values(|y: Seq<char>| strip_cr(y)) =~= Seq::<Seq<char>>::empty());
    } else {
        let d = ys.drop_last();
        assert(no_newlines(d)) by {
            assert forall|i: int| 0 <= i < d.len() implies !(#[trigger] d[i]).contains('\n') by {
                assert(d[i] == ys[i]);
            }
        }
        lemma_lines_join_newline(d);
        let a = join(d, seq!['\n']) + seq!['\n'];
        assert(join(ys, seq!['\n']) =~= a + ys.last());
        lemma_lines_after_append(a, ys.last(), Seq::empty());
    }
}

/// The trimmed lines of `ls` that are not blank, in order.
pub open spec fn significant(ls: Seq<Seq<char>>) -> Seq<Seq<char>>
    decreases ls.len(),
{
    if ls.len() == 0 {
        Seq::empty()
    } else if trim(ls[0]).len() == 0 {
        significant(ls.drop_first())
    } else {
        seq![trim(ls[0])] + significant(ls.drop_first())
    }
}

proof fn lemma_significant_append(a: Seq<Seq<char>>, b: Seq<Seq<char>>)
    ensures
        significant(a + b) == significant(a) + significant(b),
    decreases a.len(),
{
    if a.len() == 0 {
        assert(a + b =~= b);
    } else {
        assert((a + b)[0] == a[0]);
        assert((a + b).drop_first() =~= a.drop_first() + b);
        lemma_significant_append(a.drop_first(), b);
        if trim(a[0]).len() > 0 {
            let x = seq![trim(a[0])];
            assert(x + (significant(a.drop_first()) + significant(b)) =~= (x + significant(a.drop_first())) + significant(b));
        }
    }
}

/// A map that keeps the trim of every line keeps the significant lines.
proof fn lemma_significant_map(ys: Seq<Seq<char>>, f: spec_fn(Seq<char>) -> Seq<char>)
    requires
        forall|y: Seq<char>| #[trigger] trim(f(y)) == trim(y),
    ensures
        significant(ys.map_values(f)) == significant(ys),
    decreases ys.len(),
{
    if ys.len() > 0 {
        assert(ys.map_values(f).drop_first() =~= ys.drop_first().map_values(f));
        assert(ys.map_values(f)[0] == f(ys[0]));
        assert(trim(f(ys[0])) == trim(ys[0]));
        lemma_significant_map(ys.drop_first(), f);
    }
}

proof fn lemma_trim_strip_cr(y: Seq<char>)
    ensures
        trim(strip_cr(y)) == trim(y),
{
    if y.len() > 0 && y.last() == '\r' {
        assert(y =~= y.drop_last() + seq!['\r']);
        lemma_trim_append_ws(y.drop_last(), seq!['\r']);
    }
}

/// A line is read by its trim alone, and a blank line changes nothing.
proof fn lemma_step_reads_trim(h: HarnessView, sec: Section, l: Seq<char>)
    ensures
        harness_step(h, sec, l) == harness_step(h, sec, trim(l)),
        trim(l).len() == 0 ==> harness_step(h, sec, l) == (h, sec),
{
    lemma_trim_idempotent(l);
    reveal_strlit("# Module:");
    reveal_strlit("# Module ");
    reveal_strlit("## Spec");
    reveal_strlit("## Agentic Contracts");
    reveal_strlit("## Evals");
    reveal_strlit("## ");
    reveal_strlit("- ");
    if trim(l).len() == 0 {
        assert(!starts_with(trim(l), "# Module:"@));
        assert(!starts_with(trim(l), "# Module "@));
        assert(trim(l) != "## Spec"@);
        assert(trim(l) != "## Agentic Contracts"@);
        assert(trim(l) != "## Evals"@);
        assert(!starts_with(trim(l), "## "@));
        assert(!starts_with(trim(l), "- "@));
    }
}

/// Reading lines is reading their significant lines.
proof fn lemma_fold_significant(ls: Seq<Seq<char>>, h: HarnessView, sec: Section)
    ensures
        harness_fold(ls, h, sec) == harness_fold(significant(ls), h, sec),
    decreases ls.len(),
{
    if ls.len() > 0 {
        lemma_step_reads_trim(h, sec, ls[0]);
        let (h2, s2) = harness_step(h, sec, ls[0]);
        lemma_fold_significant(ls.drop_first(), h2, s2);
        if trim(ls[0]).len() > 0 {
            let sig = significant(ls);
            assert(sig[0] == trim(ls[0]));
            assert(sig.drop_first() =~= significant(ls.drop_first()));
        }
    }
}

/// The harness of newline-free lines joined with newlines is the harness of
/// their significant lines.
proof fn lemma_harness_of_join(xs: Seq<Seq<char>>)
    requires
        no_newlines(xs),
    ensures
        spec_parse_harness_sections(join(xs, seq!['\n'])) == harness_fold(
            significant(xs),
            empty_harness(),
            Section::Other,
        ),
{
    let ls = lines(join(xs, seq!['\n']));
    lemma_fold_significant(ls, empty_harness(), Section::Other);
    if xs.len() == 0 {
        assert(lines_after(Seq::<char>::empty(), Seq::<char>::empty()) =~= Seq::<Seq<char>>::empty());
    } else {
        lemma_lines_join(xs);
        let d = xs.drop_last();
        let f = |y: Seq<char>| strip_cr(y);
        assert forall|y: Seq<char>| #[trigger] trim(f(y)) == trim(y) by {
            lemma_trim_strip_cr(y);
        }
        lemma_significant_map(d, f);
        let tail = if xs.last().len() == 0 {
            Seq::<Seq<char>>::empty()
        } else {
            seq![xs.last()]
        };
        lemma_significant_append(d.map_values(f), tail);
        lemma_significant_append(d, seq![xs.last()]);
        assert(xs =~= d + seq![xs.last()]);
        assert(significant(seq![xs.last()]) == significant(tail)) by {
            assert(seq![xs.last()].drop_first() =~= Seq::<Seq<char>>::empty());
            if xs.last().len() == 0 {
                assert(trim(xs.last()) =~= Seq::<char>::empty()) by {
                    assert(trim_start(xs.last()) =~= xs.last());
                }
            } else {
                assert(tail.drop_first() =~= Seq::<Seq<char>>::empty());
            }
        }
    }
}

proof fn lemma_trim_end_concat(a: Seq<char>, b: Seq<char>)
    ensures
        trim_end(a + b) == (if trim_end(b).len() > 0 {
            a + trim_end(b)
        } else {
            trim_end(a)
        }),
    decreases b.len(),
{
    if b.len() == 0 {
        assert(a + b =~= a);
    } else if is_ws(b.last()) {
        assert((a + b).drop_last() =~= a + b.drop_last());
        lemma_trim_end_concat(a, b.drop_last());
    }
}

proof fn lemma_trim_end_no_newline(l: Seq<char>)
    requires
        !l.contains('\n'),
    ensures
        !trim_end(l).contains('\n'),
{
    lemma_trim_end_shape(l);
    if trim_end(l).contains('\n') {
        let i = choose|i: int| 0 <= i < trim_end(l).len() && trim_end(l)[i] == '\n';
        assert(l[i] == '\n');
        assert(l.contains('\n'));
    }
}

/// A comment line `marker + " " + l` (with or without a `'\r'` at its end)
/// is a comment line, and its text is `l` without trailing whitespace.
proof fn lemma_comment_line(m: Seq<char>, l: Seq<char>, x: Seq<char>)
    requires
        m.len() > 0,
        !is_ws(m[0]),
        !is_ws(m.last()),
        x == m + seq![' '] + l || x == strip_cr(m + seq![' '] + l),
    ensures
        starts_with(trim(x), m),
        comment_text(x, m) == trim_end(l),
{
    let ml = m + seq![' '] + l;
    lemma_trim_strip_cr(ml);
    assert(trim(x) == trim(ml));
    assert(ml[0] == m[0]);
    assert(trim_start(ml) == ml);
    assert(ml =~= (m + seq![' ']) + l);
    lemma_trim_end_concat(m + seq![' '], l);
    assert((m + seq![' ']).drop_last() =~= m);
    assert(trim_end(m + seq![' ']) == trim_end(m));
    assert(trim_end(m) == m);
    let t = trim(x);
    if trim_end(l).len() > 0 {
        assert(t =~= (m + seq![' ']) + trim_end(l));
        assert(t.take(m.len() as int) =~= m);
        assert(t.take(m.len() as int + 1) =~= m + seq![' ']);
        assert(t.skip(m.len() as int + 1) =~= trim_end(l));
    } else {
        assert(t == m);
        assert(t.take(m.len() as int) =~= m);
        assert(t.skip(m.len() as int) =~= Seq::<char>::empty());
        assert(trim_end(l) =~= Seq::<char>::empty());
    }
}

/// After the lines that satisfy `p`, the first that does not is at the end.
proof fn lemma_first_from_all(ls: Seq<Seq<char>>, i: int, p: spec_fn(Seq<char>) -> bool)
    requires
        0 <= i,
        forall|k: int| 0 <= k < ls.len() ==> p(#[trigger] ls[k]),
    ensures
        first_from(ls, i, negated(p)) == ls.len(),
    decreases ls.len() - i,
{
    if i < ls.len() {
        assert(p(ls[i]));
        lemma_first_from_all(ls, i + 1, p);
    }
}

/// The lines of `body`, each after `marker`.
pub open spec fn prefixed(body: Seq<Seq<char>>, marker: Seq<char>) -> Seq<Seq<char>> {
    body.map_values(|l: Seq<char>| marker + l)
}

/// Source whose lines are `marker` comments on the lines of `body`.
pub open spec fn commented_source(body: Seq<Seq<char>>, marker: Seq<char>) -> Seq<char> {
    join(prefixed(body, marker), "\n"@)
}

/// The lines of the comment source, and what each is read as.
proof fn lemma_commented_lines(body: Seq<Seq<char>>, m: Seq<char>)
    requires
        no_newlines(body),
        m.len() > 0,
        !is_ws(m[0]),
        !is_ws(m.last()),
        !m.contains('\n'),
    ensures
        ({
            let ls = lines(commented_source(body, m + seq![' ']));
            &&& ls.len() == body.len()
            &&& forall|k: int| 0 <= k < ls.len() ==> starts_with(trim(#[trigger] ls[k]), m)
            &&& ls.map_values(|x: Seq<char>| comment_text(x, m)) == body.map_values(
                |l: Seq<char>| trim_end(l),
            )
        }),
{
    reveal_strlit("\n");
    assert("\n"@ =~= seq!['\n']);
    let mk = m + seq![' '];
    let r = prefixed(body, mk);
    let ls = lines(commented_source(body, mk));
    assert(no_newlines(r)) by {
        assert forall|i: int| 0 <= i < r.len() implies !(#[trigger] r[i]).contains('\n') by {
            assert(r[i] == mk + body[i]);
            if r[i].contains('\n') {
                let j = choose|j: int| 0 <= j < r[i].len() && r[i][j] == '\n';
                if j < m.len() {
                    assert(m[j] == '\n');
                    assert(m.contains('\n'));
                } else if j == m.len() {
                } else {
                    assert(body[i][j - mk.len()] == '\n');
                    assert(body[i].contains('\n'));
                }
            }
        }
    }
    if body.len() == 0 {
        assert(r =~= Seq::<Seq<char>>::empty());
        assert(lines_after(Seq::<char>::empty(), Seq::<char>::empty()) =~= Seq::<Seq<char>>::empty());
        assert(ls.map_values(|x: Seq<char>| comment_text(x, m)) =~= body.map_values(
            |l: Seq<char>| trim_end(l),
        ));
    } else {
        lemma_lines_join(r);
        assert(r.last() == mk + body.last());
        assert(r.last().len() > 0);
        assert forall|k: int| 0 <= k < ls.len() implies starts_with(trim(#[trigger] ls[k]), m)
            && comment_text(ls[k], m) == trim_end(body[k]) by {
            assert(r[k] == mk + body[k]);
            if k < ls.len() - 1 {
                assert(ls[k] == strip_cr(r[k]));
            } else {
                assert(ls[k] == r[k]);
            }
            lemma_comment_line(m, body[k], ls[k]);
        }
        assert(ls.map_values(|x: Seq<char>| comment_text(x, m)) =~= body.map_values(
            |l: Seq<char>| trim_end(l),
        ));
    }
}

/// The harness of the text `body` after its comment markers are taken off.
proof fn lemma_harness_of_trimmed_body(body: Seq<Seq<char>>)
    requires
        no_newlines(body),
    ensures
        spec_parse_harness_sections(join(body.map_values(|l: Seq<char>| trim_end(l)), "\n"@))
            == spec_parse_harness_sections(join(body, "\n"@)),
{
    reveal_strlit("\n");
    assert("\n"@ =~= seq!['\n']);
    let f = |l: Seq<char>| trim_end(l);
    let t = body.map_values(f);
    assert(no_newlines(t)) by {
        assert forall|i: int| 0 <= i < t.len() implies !(#[trigger] t[i]).contains('\n') by {
            lemma_trim_end_no_newline(body[i]);
        }
    }
    lemma_harness_of_join(t);
    lemma_harness_of_join(body);
    assert forall|y: Seq<char>| #[trigger] trim(f(y)) == trim(y) by {
        lemma_trim_trim_end(y);
    }
    lemma_significant_map(body, f);
}

/// The source of a Rust module whose `//!` doc comment holds `body`.
pub open spec fn rust_source(body: Seq<Seq<char>>) -> Seq<char> {
    commented_source(body, "//! "@)
}

/// The source of a Go file whose package comment holds `body`.
pub open spec fn go_source(body: Seq<Seq<char>>) -> Seq<char> {
    commented_source(body, "// "@)
}

/// The source of a Python module whose docstring holds `body`.
pub open spec fn python_source(body: Seq<Seq<char>>) -> Seq<char> {
    "\"\"\"\n"@ + join(body, "\n"@) + "\n\"\"\""@
}

/// The harness format is the same in every comment syntax: a Rust `//!`
/// doc comment, a Go `//` package comment, a Python docstring and a
/// `/** ... */` comment (TypeScript, JavaScript, Kotlin, Java) that hold the
/// same lines give the harness of those lines. For the docstring the lines
/// must not hold its closing `"""`, and for the `/** ... */` comment no line
/// may hold its closing `*/`.
pub proof fn law_same_harness_in_every_comment_syntax(body: Seq<Seq<char>>)
    requires
        no_newlines(body),
    ensures
        spec_extract_harness(rust_source(body), Language::Rust) == spec_parse_harness_sections(
            join(body, "\n"@),
        ),
        spec_extract_harness(go_source(body), Language::Go) == spec_parse_harness_sections(
            join(body, "\n"@),
        ),
        find(join(body, "\n"@), "\"\"\""@) is None ==> spec_extract_harness(
            python_source(body),
            Language::Python,
        ) == spec_parse_harness_sections(join(body, "\n"@)),
        forall|lang: Language|
            uses_jsdoc(lang) && no_line_holds(body, "*/"@) ==> #[trigger] spec_extract_harness(
                jsdoc_source(body),
                lang,
            ) == spec_parse_harness_sections(join(body, "\n"@)),
{
    if no_line_holds(body, "*/"@) {
        lemma_jsdoc_source_harness(body);
    }
    reveal_strlit("//! ");
    reveal_strlit("//!");
    reveal_strlit("// ");
    reveal_strlit("//");
    reveal_strlit("\n");
    assert("//! "@ =~= "//!"@ + seq![' ']);
    assert("// "@ =~= "//"@ + seq![' ']);
    let te = |l: Seq<char>| trim_end(l);
    lemma_harness_of_trimmed_body(body);
    // Rust
    let m = "//!"@;
    assert(!m.contains('\n'));
    lemma_commented_lines(body, m);
    let ls = lines(rust_source(body));
    let p = rust_doc_pred();
    assert forall|k: int| 0 <= k < ls.len() implies p(#[trigger] ls[k]) by {
        assert(starts_with(trim(ls[k]), m));
    }
    lemma_first_from_all(ls, 0, p);
    if ls.len() > 0 {
        assert(p(ls[0]));
    }
    assert(first_run(ls, p) =~= ls);
    assert(spec_rust_doc(rust_source(body)) == join(body.map_values(te), "\n"@)) by {
        assert(ls.map_values(|x: Seq<char>| comment_text(x, m)) =~= body.map_values(te));
    }
    // Go
    let g = "//"@;
    assert(!g.contains('\n'));
    lemma_commented_lines(body, g);
    let gl = lines(go_source(body));
    let q = go_comment_pred();
    assert forall|k: int| 0 <= k < gl.len() implies q(#[trigger] gl[k]) by {
        assert(starts_with(trim(gl[k]), g));
    }
    lemma_first_from_all(gl, 0, q);
    lemma_go_comments_only(gl);
    assert(go_comment_block(gl) =~= gl);
    assert(spec_go_doc(go_source(body)) == join(body.map_values(te), "\n"@)) by {
        assert(gl.map_values(|x: Seq<char>| comment_text(x, g)) =~= body.map_values(te));
    }
    // Python
    if find(join(body, "\n"@), "\"\"\""@) is None {
        lemma_python_docstring(body);
    }
}

/// The first occurrence found is the one at `j` when none comes before it.
proof fn lemma_find_first(s: Seq<char>, p: Seq<char>, i: int, j: int)
    requires
        0 <= i <= j,
        occurs_at(s, p, j),
        forall|k: int| i <= k < j ==> !occurs_at(s, p, k),
    ensures
        find_from(s, p, i) == Some(j),
    decreases j - i,
{
    if i < j {
        lemma_find_first(s, p, i + 1, j);
    }
}

/// The docstring of the Python source is its body between two newlines.
proof fn lemma_python_docstring_text(body: Seq<Seq<char>>)
    requires
        find(join(body, "\n"@), "\"\"\""@) is None,
    ensures
        spec_python_doc(python_source(body)) == seq!['\n'] + (join(body, "\n"@) + seq!['\n']),
        docstring_with(python_code_start(python_source(body), false), "\"\"\""@) is Some,
        python_code_start(python_source(body), false) == python_source(body),
{
    reveal_strlit("\n");
    reveal_strlit("\"\"\"");
    reveal_strlit("\"\"\"\n");
    reveal_strlit("\n\"\"\"");
    let q = "\"\"\""@;
    let nl = seq!['\n'];
    let j = join(body, "\n"@);
    let c = python_source(body);
    assert(c =~= q + (nl + j + nl + q));
    assert(c[0] == '"');
    assert(python_code_start(c, false) == c);
    assert(c.take(3) =~= q);
    let rest = c.skip(3);
    assert(rest =~= nl + j + nl + q);
    let e: int = j.len() as int + 2;
    assert(rest.subrange(e, e + 3) =~= q);
    lemma_find_occurs(j, q, 0);
    assert forall|k: int| 0 <= k < e implies !occurs_at(rest, q, k) by {
        if occurs_at(rest, q, k) {
            assert(rest.subrange(k, k + 3)[0] == rest[k]);
            assert(rest.subrange(k, k + 3)[1] == rest[k + 1]);
            assert(rest.subrange(k, k + 3)[2] == rest[k + 2]);
            if k == 0 {
                assert(rest[0] == '\n');
            } else if k + 3 <= j.len() + 1 {
                assert(j.subrange(k - 1, k + 2) =~= rest.subrange(k, k + 3));
                assert(occurs_at(j, q, k - 1));
            } else {
                let w: int = j.len() as int + 1;
                assert(rest[w] == '\n');
                assert(k <= w < k + 3);
                assert(rest.subrange(k, k + 3)[w - k] == rest[w]);
            }
        }
    }
    lemma_find_first(rest, q, 0, e);
    assert(docstring_with(c, q) == Some(rest.take(e)));
    assert(rest.take(e) =~= nl + (j + nl));
}

/// Blank lines around the text do not change its harness.
proof fn lemma_python_docstring_harness(body: Seq<Seq<char>>)
    requires
        no_newlines(body),
    ensures
        spec_parse_harness_sections(seq!['\n'] + (join(body, "\n"@) + seq!['\n']))
            == spec_parse_harness_sections(join(body, "\n"@)),
{
    reveal_strlit("\n");
    let nl = seq!['\n'];
    assert("\n"@ =~= nl);
    let j = join(body, "\n"@);
    let d = nl + (j + nl);
    lemma_lines_after_append(nl, j + nl, Seq::empty());
    assert(nl.drop_first() =~= Seq::<char>::empty());
    assert(lines_after(Seq::<char>::empty(), Seq::<char>::empty()) =~= Seq::<Seq<char>>::empty());
    assert(lines_after(nl, Seq::empty()) =~= seq![Seq::<char>::empty()]) by {
        assert(strip_cr(Seq::<char>::empty()) =~= Seq::<char>::empty());
    }
    let blank = seq![Seq::<char>::empty()];
    assert(significant(blank) =~= Seq::<Seq<char>>::empty()) by {
        assert(trim_start(Seq::<char>::empty()) =~= Seq::<char>::empty());
        assert(trim(Seq::<char>::empty()) =~= Seq::<char>::empty());
        assert(blank.drop_first() =~= Seq::<Seq<char>>::empty());
        assert(significant(Seq::<Seq<char>>::empty()) =~= Seq::<Seq<char>>::empty());
    }
    let rl = lines(j + nl);
    lemma_significant_append(blank, rl);
    lemma_fold_significant(lines(d), empty_harness(), Section::Other);
    lemma_harness_of_join(body);
    if body.len() == 0 {
        assert(j =~= Seq::<char>::empty());
        assert(j + nl =~= nl);
        assert(significant(body) =~= Seq::<Seq<char>>::empty());
    } else {
        lemma_lines_join_newline(body);
        let f = |y: Seq<char>| strip_cr(y);
        assert forall|y: Seq<char>| #[trigger] trim(f(y)) == trim(y) by {
            lemma_trim_strip_cr(y);
        }
        lemma_significant_map(body, f);
    }
}

/// The harness of the Python source is the harness of its body.
proof fn lemma_python_docstring(body: Seq<Seq<char>>)
    requires
        no_newlines(body),
        find(join(body, "\n"@), "\"\"\""@) is None,
    ensures
        spec_extract_harness(python_source(body), Language::Python) == spec_parse_harness_sections(
            join(body, "\n"@),
        ),
{
    lemma_python_docstring_text(body);
    lemma_python_docstring_harness(body);
}

/// Whitespace before a text does not change its trim.
proof fn lemma_trim_prepend_ws(w: Seq<char>, c: Seq<char>)
    requires
        all_ws(w),
    ensures
        trim(w + c) == trim(c),
{
    lemma_trim_start_append(w, c);
    lemma_trim_start_all_ws(w);
}

/// A line that is all whitespace is blank.
proof fn lemma_significant_blank(c: Seq<char>)
    requires
        all_ws(c),
    ensures
        significant(seq![c]) == Seq::<Seq<char>>::empty(),
        significant(seq![strip_cr(c)]) == Seq::<Seq<char>>::empty(),
{
    lemma_trim_start_all_ws(c);
    lemma_trim_strip_cr(c);
    assert(seq![c].drop_first() =~= Seq::<Seq<char>>::empty());
    assert(seq![strip_cr(c)].drop_first() =~= Seq::<Seq<char>>::empty());
    assert(significant(Seq::<Seq<char>>::empty()) =~= Seq::<Seq<char>>::empty());
}

/// The significant lines of a partial line and what follows it do not
/// change when whitespace is put before the partial line.
proof fn lemma_lines_after_ws_prefix(y: Seq<char>, w: Seq<char>, c: Seq<char>)
    requires
        all_ws(w),
    ensures
        significant(lines_after(y, w + c)) == significant(lines_after(y, c)),
    decreases y.len(),
{
    lemma_trim_prepend_ws(w, c);
    if y.len() == 0 {
        if c.len() == 0 {
            assert(w + c =~= w);
            lemma_significant_blank(w);
        } else {
            assert(seq![w + c].drop_first() =~= Seq::<Seq<char>>::empty());
            assert(seq![c].drop_first() =~= Seq::<Seq<char>>::empty());
        }
    } else if y[0] == '\n' {
        lemma_trim_strip_cr(w + c);
        lemma_trim_strip_cr(c);
        let rest = lines_after(y.drop_first(), Seq::empty());
        lemma_significant_append(seq![strip_cr(w + c)], rest);
        lemma_significant_append(seq![strip_cr(c)], rest);
        assert(seq![strip_cr(w + c)].drop_first() =~= Seq::<Seq<char>>::empty());
        assert(seq![strip_cr(c)].drop_first() =~= Seq::<Seq<char>>::empty());
    } else {
        assert((w + c).push(y[0]) =~= w + c.push(y[0]));
        lemma_lines_after_ws_prefix(y.drop_first(), w, c.push(y[0]));
    }
}

/// Leading whitespace does not change the significant lines.
proof fn lemma_lines_after_ws_lead(w: Seq<char>, y: Seq<char>, c: Seq<char>)
    requires
        all_ws(w),
        all_ws(c),
    ensures
        significant(lines_after(w + y, c)) == significant(lines_after(y, Seq::empty())),
    decreases w.len(),
{
    if w.len() == 0 {
        assert(w + y =~= y);
        lemma_lines_after_ws_prefix(y, c, Seq::empty());
        assert(c + Seq::<char>::empty() =~= c);
    } else {
        assert((w + y)[0] == w[0]);
        assert((w + y).drop_first() =~= w.drop_first() + y);
        if w[0] == '\n' {
            let rest = lines_after(w.drop_first() + y, Seq::empty());
            lemma_significant_append(seq![strip_cr(c)], rest);
            lemma_significant_blank(c);
            lemma_lines_after_ws_lead(w.drop_first(), y, Seq::empty());
        } else {
            lemma_lines_after_ws_lead(w.drop_first(), y, c.push(w[0]));
        }
    }
}

/// Trailing whitespace does not change the significant lines.
proof fn lemma_lines_after_ws_trail(s: Seq<char>, w: Seq<char>, cur: Seq<char>)
    requires
        all_ws(w),
    ensures
        significant(lines_after(s + w, cur)) == significant(lines_after(s, cur)),
    decreases s.len() + w.len(),
{
    if s.len() == 0 {
        assert(s + w =~= w);
        if w.len() == 0 {
        } else if w[0] == '\n' {
            let rest = lines_after(w.drop_first(), Seq::empty());
            lemma_lines_after_ws_trail(Seq::empty(), w.drop_first(), Seq::empty());
            assert(Seq::<char>::empty() + w.drop_first() =~= w.drop_first());
            assert(lines_after(Seq::<char>::empty(), Seq::<char>::empty()) =~= Seq::<Seq<char>>::empty());
            assert(significant(Seq::<Seq<char>>::empty()) =~= Seq::<Seq<char>>::empty());
            lemma_significant_append(seq![strip_cr(cur)], rest);
            lemma_trim_strip_cr(cur);
            if cur.len() == 0 {
                lemma_significant_blank(cur);
            } else {
                assert(seq![strip_cr(cur)].drop_first() =~= Seq::<Seq<char>>::empty());
                assert(seq![cur].drop_first() =~= Seq::<Seq<char>>::empty());
            }
        } else {
            lemma_lines_after_ws_trail(Seq::empty(), w.drop_first(), cur.push(w[0]));
            assert(Seq::<char>::empty() + w.drop_first() =~= w.drop_first());
            assert(cur.push(w[0]) =~= cur + seq![w[0]]);
            lemma_trim_append_ws(cur, seq![w[0]]);
            if cur.len() == 0 {
                lemma_significant_blank(seq![w[0]]);
                assert(cur + seq![w[0]] =~= seq![w[0]]);
            } else {
                assert(seq![cur.push(w[0])].drop_first() =~= Seq::<Seq<char>>::empty());
                assert(seq![cur].drop_first() =~= Seq::<Seq<char>>::empty());
            }
        }
    } else {
        assert((s + w)[0] == s[0]);
        assert((s + w).drop_first() =~= s.drop_first() + w);
        if s[0] == '\n' {
            lemma_lines_after_ws_trail(s.drop_first(), w, Seq::empty());
            let a = lines_after(s.drop_first() + w, Seq::empty());
            let b = lines_after(s.drop_first(), Seq::empty());
            lemma_significant_append(seq![strip_cr(cur)], a);
            lemma_significant_append(seq![strip_cr(cur)], b);
        } else {
            lemma_lines_after_ws_trail(s.drop_first(), w, cur.push(s[0]));
        }
    }
}

proof fn lemma_trim_start_shape_full(z: Seq<char>)
    ensures
        ({
            let k = z.len() - trim_start(z).len();
            &&& 0 <= k <= z.len()
            &&& trim_start(z) == z.skip(k)
            &&& all_ws(z.take(k))
        }),
    decreases z.len(),
{
    if z.len() > 0 && is_ws(z[0]) {
        lemma_trim_start_shape_full(z.drop_first());
        let k = z.len() - trim_start(z).len();
        assert(z.drop_first().skip(k - 1) =~= z.skip(k));
        assert forall|i: int| 0 <= i < z.take(k).len() implies is_ws(#[trigger] z.take(k)[i]) by {
            if i > 0 {
                assert(z.take(k)[i] == z.drop_first().take(k - 1)[i - 1]);
            }
        }
    } else {
        assert(z.skip(0) =~= z);
    }
}

/// Trimming a whole text does not change the significant lines of its lines.
proof fn lemma_lines_of_trim(x: Seq<char>)
    ensures
        significant(lines(trim(x))) == significant(lines(x)),
{
    lemma_trim_start_shape_full(x);
    let k = x.len() - trim_start(x).len();
    let s = trim_start(x);
    assert(x =~= x.take(k) + s);
    lemma_lines_after_ws_lead(x.take(k), s, Seq::empty());
    lemma_trim_end_shape(s);
    let m = trim_end(s).len() as int;
    assert(s =~= s.take(m) + s.skip(m));
    lemma_lines_after_ws_trail(s.take(m), s.skip(m), Seq::empty());
    assert(all_ws(Seq::<char>::empty()));
}

/// Trimming the whole text does not change its harness.
proof fn lemma_harness_of_trim(x: Seq<char>)
    ensures
        spec_parse_harness_sections(trim(x)) == spec_parse_harness_sections(x),
{
    lemma_lines_of_trim(x);
    lemma_fold_significant(lines(trim(x)), empty_harness(), Section::Other);
    lemma_fold_significant(lines(x), empty_harness(), Section::Other);
}

/// An occurrence of a newline-free pattern in lines joined with newlines
/// lies within one of the lines.
proof fn lemma_occurs_in_join(xs: Seq<Seq<char>>, p: Seq<char>, k: int)
    requires
        !p.contains('\n'),
        p.len() > 0,
        occurs_at(join(xs, seq!['\n']), p, k),
    ensures
        exists|i: int, j: int| #![trigger occurs_at(xs[i], p, j)] 0 <= i < xs.len() && occurs_at(xs[i], p, j),
    decreases xs.len(),
{
    let s = join(xs, seq!['\n']);
    if xs.len() == 0 {
    } else if xs.len() == 1 {
        assert(occurs_at(xs[0], p, k));
    } else {
        let d = xs.drop_last();
        let a = join(d, seq!['\n']);
        let b = xs.last();
        assert(s =~= a + seq!['\n'] + b);
        if k + p.len() <= a.len() {
            assert(a.subrange(k, k + p.len()) =~= s.subrange(k, k + p.len()));
            lemma_occurs_in_join(d, p, k);
            let (i, j) = choose|i: int, j: int| #![trigger occurs_at(d[i], p, j)] 0 <= i < d.len() && occurs_at(d[i], p, j);
            assert(xs[i] == d[i]);
        } else if k > a.len() {
            let j = k - a.len() - 1;
            assert(b.subrange(j, j + p.len()) =~= s.subrange(k, k + p.len()));
            assert(occurs_at(xs[xs.len() - 1], p, j));
        } else {
            let w = a.len() as int;
            assert(s[w] == '\n');
            assert(s.subrange(k, k + p.len())[w - k] == s[w]);
            assert(p[w - k] == '\n');
            assert(p.contains('\n'));
        }
    }
}

/// Whitespace before a text does not change its trim (one char).
proof fn lemma_trim_space_first(y: Seq<char>)
    ensures
        trim(seq![' '] + y) == trim(y),
{
    assert(all_ws(seq![' ']));
    lemma_trim_prepend_ws(seq![' '], y);
}

/// A JSDoc line `" * " + l` reads as `l` without trailing whitespace.
proof fn lemma_jsdoc_line(l: Seq<char>, x: Seq<char>)
    requires
        x == seq![' '] + (seq!['*', ' '] + l) || x == strip_cr(seq![' '] + (seq!['*', ' '] + l)),
    ensures
        jsdoc_line_text(x) == trim_end(l),
{
    reveal_strlit("* ");
    reveal_strlit("*");
    let m = seq!['*'];
    let y = m + seq![' '] + l;
    assert(seq!['*', ' '] + l =~= y);
    let z = seq![' '] + y;
    lemma_trim_strip_cr(z);
    lemma_trim_space_first(y);
    assert(trim(x) == trim(y));
    lemma_comment_line(m, l, y);
    assert("* "@ =~= m + seq![' ']);
    assert("*"@ =~= m);
}

/// The source of a module whose `/** ... */` comment holds `body`.
pub open spec fn jsdoc_source(body: Seq<Seq<char>>) -> Seq<char> {
    "/**\n"@ + join(prefixed(body, " * "@), "\n"@) + "\n */"@
}

/// No line of `body` holds `p`.
pub open spec fn no_line_holds(body: Seq<Seq<char>>, p: Seq<char>) -> bool {
    forall|i: int| 0 <= i < body.len() ==> find(#[trigger] body[i], p) is None
}

/// The comment text of the JSDoc source, before it is trimmed.
proof fn lemma_jsdoc_block(body: Seq<Seq<char>>)
    requires
        no_newlines(body),
        no_line_holds(body, "*/"@),
    ensures
        ({
            let c = jsdoc_source(body);
            let r = join(prefixed(body, " * "@), "\n"@);
            &&& trim_start(c) == c
            &&& starts_with(c, "/**"@)
            &&& find(c, "*/"@) == Some(4 + r.len() as int + 2)
            &&& c.subrange("/**"@.len() as int, 4 + r.len() as int + 2) == seq!['\n'] + (r + seq![
                '\n',
                ' ',
            ])
        }),
{
    reveal_strlit("/**\n");
    reveal_strlit("/**");
    reveal_strlit("\n */");
    reveal_strlit("*/");
    reveal_strlit(" * ");
    reveal_strlit("\n");
    let nl = seq!['\n'];
    assert("\n"@ =~= nl);
    let pre = prefixed(body, " * "@);
    let r = join(pre, "\n"@);
    let c = jsdoc_source(body);
    let p = "*/"@;
    let e: int = 4 + r.len() as int + 2;
    assert(c =~= seq!['/', '*', '*', '\n'] + r + seq!['\n', ' ', '*', '/']);
    assert(c[0] == '/');
    assert(trim_start(c) == c);
    assert(c.take(3) =~= "/**"@);
    assert(c.subrange(e, e + 2) =~= p);
    assert(!p.contains('\n')) by {
        assert(p[0] != '\n' && p[1] != '\n');
    }
    assert forall|k: int| 0 <= k < e implies !occurs_at(c, p, k) by {
        if occurs_at(c, p, k) {
            assert(c.subrange(k, k + 2)[0] == c[k]);
            assert(c.subrange(k, k + 2)[1] == c[k + 1]);
            assert(c[k] == '*' && c[k + 1] == '/');
            if k < 4 {
                assert(c[1] == '*' && c[2] == '*' && c[3] == '\n');
                if k == 3 {
                    assert(c[3] == '\n');
                } else if k == 2 {
                    assert(c[3] == '\n');
                }
            } else if k + 2 <= 4 + r.len() {
                let j = k - 4;
                assert(r.subrange(j, j + 2) =~= c.subrange(k, k + 2));
                assert(occurs_at(r, p, j));
                lemma_occurs_in_join(pre, p, j);
                let (i, jj) = choose|i: int, jj: int| #![trigger occurs_at(pre[i], p, jj)] 0 <= i < pre.len() && occurs_at(pre[i], p, jj);
                let l = body[i];
                assert(pre[i] =~= seq![' ', '*', ' '] + l);
                assert(pre[i].subrange(jj, jj + 2)[0] == pre[i][jj]);
                assert(pre[i].subrange(jj, jj + 2)[1] == pre[i][jj + 1]);
                if jj >= 3 {
                    assert(l.subrange(jj - 3, jj - 1) =~= pre[i].subrange(jj, jj + 2));
                    assert(occurs_at(body[i], p, jj - 3));
                    assert(find(body[i], p) is None);
                    lemma_find_occurs(body[i], p, 0);
                } else {
                    assert(pre[i][0] == ' ' && pre[i][1] == '*' && pre[i][2] == ' ');
                    if jj == 2 {
                        assert(pre[i][2] == ' ');
                    }
                }
            } else {
                let w: int = 4 + r.len() as int;
                assert(c[w] == '\n');
                assert(c[w + 1] == ' ');
            }
        }
    }
    lemma_find_first(c, p, 0, e);
    assert(c.subrange(3, e) =~= nl + (r + seq!['\n', ' ']));
}

/// The harness of the JSDoc source is the harness of its body.
proof fn lemma_jsdoc_harness(body: Seq<Seq<char>>)
    requires
        no_newlines(body),
        no_line_holds(body, "*/"@),
    ensures
        spec_jsdoc(jsdoc_source(body)) == trim(join(jsdoc_texts(body), "\n"@)),
{
    lemma_jsdoc_block(body);
    reveal_strlit("\n");
    reveal_strlit(" * ");
    reveal_strlit("/**");
    let nl = seq!['\n'];
    assert("\n"@ =~= nl);
    let pre = prefixed(body, " * "@);
    let r = join(pre, "\n"@);
    let block = nl + (r + seq!['\n', ' ']);
    assert(no_newlines(pre)) by {
        assert forall|i: int| 0 <= i < pre.len() implies !(#[trigger] pre[i]).contains('\n') by {
            assert(pre[i] =~= seq![' ', '*', ' '] + body[i]);
            if pre[i].contains('\n') {
                let j = choose|j: int| 0 <= j < pre[i].len() && pre[i][j] == '\n';
                if j >= 3 {
                    assert(body[i][j - 3] == '\n');
                    assert(body[i].contains('\n'));
                }
            }
        }
    }
    // the lines of the block
    lemma_lines_after_append(nl, r + seq!['\n', ' '], Seq::empty());
    assert(nl.drop_first() =~= Seq::<char>::empty());
    assert(lines_after(Seq::<char>::empty(), Seq::<char>::empty()) =~= Seq::<Seq<char>>::empty());
    assert(lines_after(nl, Seq::empty()) =~= seq![Seq::<char>::empty()]) by {
        assert(strip_cr(Seq::<char>::empty()) =~= Seq::<char>::empty());
    }
    assert(r + seq!['\n', ' '] =~= (r + nl) + seq![' ']);
    let sp = seq![' '];
    assert(!sp.contains('\n'));
    lemma_lines_after_no_newline(sp, Seq::empty());
    assert(Seq::<char>::empty() + sp =~= sp);
    let bl = lines(block);
    let f = |l: Seq<char>| jsdoc_line_text(l);
    let te = |l: Seq<char>| trim_end(l);
    let target = jsdoc_texts(body);
    assert(jsdoc_line_text(Seq::<char>::empty()) =~= Seq::<char>::empty()) by {
        reveal_strlit("* ");
        reveal_strlit("*");
        assert(trim_start(Seq::<char>::empty()) =~= Seq::<char>::empty());
    }
    assert(jsdoc_line_text(sp) =~= Seq::<char>::empty()) by {
        reveal_strlit("* ");
        reveal_strlit("*");
        assert(all_ws(sp));
        lemma_trim_start_all_ws(sp);
    }
    if body.len() == 0 {
        assert(r =~= Seq::<char>::empty());
        assert(r + nl =~= nl);
        assert(bl =~= seq![Seq::<char>::empty()] + (seq![Seq::<char>::empty()] + seq![sp]));
        assert(bl.map_values(f) =~= target);
    } else {
        lemma_lines_after_append(r + nl, sp, Seq::empty());
        lemma_lines_join_newline(pre);
        let mid = pre.map_values(|y: Seq<char>| strip_cr(y));
        assert(bl =~= seq![Seq::<char>::empty()] + (mid + seq![sp]));
        assert forall|i: int| 0 <= i < mid.len() implies f(#[trigger] mid[i]) == te(body[i]) by {
            assert(pre[i] =~= seq![' '] + (seq!['*', ' '] + body[i]));
            lemma_jsdoc_line(body[i], mid[i]);
        }
        assert(bl.len() == target.len());
        assert forall|i: int| 0 <= i < bl.len() implies bl.map_values(f)[i] == target[i] by {
            if i == 0 {
                assert(bl[0] =~= Seq::<char>::empty());
            } else if i == bl.len() - 1 {
                assert(bl[i] == sp);
            } else {
                assert(bl[i] == mid[i - 1]);
                assert(f(mid[i - 1]) == te(body[i - 1]));
                assert(target[i] == te(body[i - 1]));
            }
        }
        assert(bl.map_values(f) =~= target);
    }
    assert(bl.map_values(f) =~= bl.map_values(|l: Seq<char>| jsdoc_line_text(l)));
}

/// The texts of the lines of the JSDoc source: a blank line, the lines of
/// `body` without trailing whitespace, and a blank line.
spec fn jsdoc_texts(body: Seq<Seq<char>>) -> Seq<Seq<char>> {
    if body.len() == 0 {
        seq![Seq::<char>::empty(), Seq::<char>::empty(), Seq::<char>::empty()]
    } else {
        seq![Seq::<char>::empty()] + body.map_values(|l: Seq<char>| trim_end(l)) + seq![
            Seq::<char>::empty(),
        ]
    }
}

/// The harness of a module whose `/** ... */` comment holds `body`.
proof fn lemma_jsdoc_source_harness(body: Seq<Seq<char>>)
    requires
        no_newlines(body),
        no_line_holds(body, "*/"@),
    ensures
        spec_parse_harness_sections(spec_jsdoc(jsdoc_source(body))) == spec_parse_harness_sections(
            join(body, "\n"@),
        ),
{
    lemma_jsdoc_harness(body);
    reveal_strlit("\n");
    assert("\n"@ =~= seq!['\n']);
    let te = |l: Seq<char>| trim_end(l);
    let t = body.map_values(te);
    let blank = seq![Seq::<char>::empty()];
    let target = jsdoc_texts(body);
    assert(no_newlines(target)) by {
        assert forall|i: int| 0 <= i < target.len() implies !(#[trigger] target[i]).contains('\n') by {
            if 0 < i < target.len() - 1 && body.len() > 0 {
                assert(target[i] == trim_end(body[i - 1]));
                lemma_trim_end_no_newline(body[i - 1]);
            } else {
                assert(target[i] =~= Seq::<char>::empty());
            }
        }
    }
    lemma_harness_of_trim(join(target, "\n"@));
    lemma_harness_of_join(target);
    assert(all_ws(Seq::<char>::empty()));
    lemma_significant_blank(Seq::<char>::empty());
    if body.len() == 0 {
        assert(target =~= blank + (blank + blank));
        lemma_significant_append(blank, blank + blank);
        lemma_significant_append(blank, blank);
        assert(t =~= Seq::<Seq<char>>::empty());
    } else {
        assert(target =~= (blank + t) + blank);
        lemma_significant_append(blank + t, blank);
        lemma_significant_append(blank, t);
    }
    assert forall|y: Seq<char>| #[trigger] trim(te(y)) == trim(y) by {
        lemma_trim_trim_end(y);
    }
    lemma_significant_map(body, te);
    assert(significant(target) =~= significant(body));
    lemma_harness_of_join(body);
}

// ---------------------------------------------------------------------------
// Eval type annotations
// ---------------------------------------------------------------------------

/// No char of `s` is whitespace.
pub open spec fn no_ws(s: Seq<char>) -> bool {
    forall|i: int| 0 <= i < s.len() ==> !is_ws(#[trigger] s[i])
}

/// No two dots stand next to each other in `s`.
pub open spec fn no_double_dot(s: Seq<char>) -> bool {
    forall|i: int| 0 <= i < s.len() - 1 ==> !(#[trigger] s[i] == '.' && s[i + 1] == '.')
}

proof fn lemma_first_dot_at(s: Seq<char>)
    ensures
        0 <= first_dot(s) <= s.len(),
        first_dot(s) < s.len() ==> s[first_dot(s)] == '.',
    decreases s.len(),
{
    if s.len() > 0 && s[0] != '.' {
        lemma_first_dot_at(s.drop_first());
    }
}

proof fn lemma_first_exp_at(s: Seq<char>)
    ensures
        0 <= first_exp(s) <= s.len(),
        first_exp(s) < s.len() ==> (s[first_exp(s)] == 'e' || s[first_exp(s)] == 'E'),
    decreases s.len(),
{
    if s.len() > 0 && s[0] != 'e' && s[0] != 'E' {
        lemma_first_exp_at(s.drop_first());
    }
}

/// A word that equals `inf`, `infinity` or `nan` without case is made of letters.
proof fn lemma_special_letters(b: Seq<char>, w: Seq<char>)
    requires
        eq_ignore_ascii_case(b, w),
        forall|i: int| 0 <= i < w.len() ==> 'a' <= #[trigger] w[i] <= 'z',
    ensures
        no_ws(b),
        forall|i: int| 0 <= i < b.len() ==> #[trigger] b[i] != '.',
{
    assert forall|i: int| 0 <= i < b.len() implies !is_ws(#[trigger] b[i]) && b[i] != '.' by {
        assert(ascii_lower_code(b[i]) == ascii_lower_code(w[i]));
        assert('a' <= w[i] <= 'z');
    }
}

/// The chars of a float literal: no whitespace, and at most one dot.
#[verifier::spinoff_prover]
proof fn lemma_float_literal_chars(s: Seq<char>)
    requires
        is_float_literal(s),
    ensures
        no_ws(s),
        no_double_dot(s),
{
    reveal_strlit("inf");
    reveal_strlit("infinity");
    reveal_strlit("nan");
    let b = unsigned_part(s);
    let off: int = if s.len() > 0 && (s[0] == '+' || s[0] == '-') {
        1
    } else {
        0
    };
    assert(b =~= s.skip(off));
    if eq_ignore_ascii_case(b, "inf"@) {
        lemma_special_letters(b, "inf"@);
    } else if eq_ignore_ascii_case(b, "infinity"@) {
        lemma_special_letters(b, "infinity"@);
    } else if eq_ignore_ascii_case(b, "nan"@) {
        lemma_special_letters(b, "nan"@);
    } else {
        assert(is_decimal(b));
        let e = first_exp(b);
        lemma_first_exp_at(b);
        let m = b.take(e);
        let d = first_dot(m);
        lemma_first_dot_at(m);
        let x = b.skip(e + 1);
        assert forall|i: int| 0 <= i < b.len() implies !is_ws(#[trigger] b[i]) && (b[i] == '.' ==> i
            == d && d < e) by {
            if i < e {
                assert(b[i] == m[i]);
                if d == m.len() {
                    assert(is_digit(m[i]));
                } else if i < d {
                    assert(m.take(d)[i] == m[i]);
                    assert(is_digit(m.take(d)[i]));
                } else if i == d {
                } else {
                    assert(m.skip(d + 1)[i - d - 1] == m[i]);
                    assert(is_digit(m.skip(d + 1)[i - d - 1]));
                }
            } else if i == e {
            } else {
                assert(is_exponent(x));
                let y = unsigned_part(x);
                assert(x[i - e - 1] == b[i]);
                if x.len() > 0 && (x[0] == '+' || x[0] == '-') {
                    if i - e - 1 == 0 {
                    } else {
                        assert(y[i - e - 2] == x[i - e - 1]);
                        assert(is_digit(y[i - e - 2]));
                    }
                } else {
                    assert(y[i - e - 1] == x[i - e - 1]);
                    assert(is_digit(y[i - e - 1]));
                }
            }
        }
    }
    assert forall|i: int| 0 <= i < s.len() implies !is_ws(#[trigger] s[i]) by {
        if i >= off {
            assert(s[i] == b[i - off]);
        }
    }
    assert forall|i: int| 0 <= i < s.len() - 1 implies !(#[trigger] s[i] == '.' && s[i + 1] == '.') by {
        if s[i] == '.' && s[i + 1] == '.' {
            if off == 1 && i == 0 {
                assert(s[0] != '.');
            } else {
                assert(s[i] == b[i - off]);
                assert(s[i + 1] == b[i + 1 - off]);
            }
        }
    }
}

/// A bound of an annotation: not empty, no whitespace, no `".."`, and not
/// ending with a dot (a dot there would start the `".."`).
pub open spec fn is_bound_text(x: Seq<char>) -> bool {
    x.len() > 0 && no_ws(x) && no_double_dot(x) && x.last() != '.'
}

proof fn lemma_trim_plain(x: Seq<char>)
    requires
        x.len() > 0,
        !is_ws(x[0]),
        !is_ws(x.last()),
    ensures
        trim(x) == x,
{
}

/// Bound texts joined by `".."` split back into the two bounds.
proof fn lemma_split_bound_texts(x: Seq<char>, y: Seq<char>)
    requires
        x.len() > 0,
        no_double_dot(x),
        x.last() != '.',
    ensures
        split_bounds(x + ".."@ + y) == Some((x, y)),
{
    reveal_strlit("..");
    let dd = ".."@;
    let xy = x + dd + y;
    assert(xy.subrange(x.len() as int, x.len() as int + 2) =~= dd);
    assert forall|k: int| 0 <= k < x.len() implies !occurs_at(xy, dd, k) by {
        if occurs_at(xy, dd, k) {
            assert(xy.subrange(k, k + 2)[0] == xy[k]);
            assert(xy.subrange(k, k + 2)[1] == xy[k + 1]);
            if k + 1 < x.len() {
                assert(x[k] == '.' && x[k + 1] == '.');
            } else {
                assert(xy[k] == x.last());
            }
        }
    }
    lemma_find_first(xy, dd, 0, x.len() as int);
    assert(xy.take(x.len() as int) =~= x);
    assert(xy.skip(x.len() as int + 2) =~= y);
}

/// The arguments `": " + x` of an annotation are `x`, for `x` without
/// whitespace at its ends.
proof fn lemma_args_after_colon(x: Seq<char>)
    requires
        x.len() > 0,
        !is_ws(x[0]),
        !is_ws(x.last()),
    ensures
        annotation_args(": "@ + x) == x,
{
    reveal_strlit(": ");
    reveal_strlit(":");
    let rest = ": "@ + x;
    assert(rest =~= seq![':', ' '] + x);
    assert(rest[0] == ':');
    assert(rest.last() == x.last());
    lemma_trim_plain(rest);
    assert(rest.take(1) =~= ":"@);
    let after = rest.skip(1);
    assert(after =~= seq![' '] + x);
    assert(after.drop_first() =~= x);
    assert(trim_start(after) == trim_start(x));
    lemma_trim_plain(x);
}

/// An annotation `keyword: low..high` splits into its two bounds.
proof fn lemma_annotation_bounds(kw: Seq<char>, x: Seq<char>, y: Seq<char>)
    requires
        kw.len() > 0,
        no_ws(kw),
        is_bound_text(x),
        y.len() > 0,
        no_ws(y),
    ensures
        ({
            let a = kw + ": "@ + x + ".."@ + y;
            &&& trim(a) == a
            &&& starts_with(a, kw)
            &&& annotation_args(a.skip(kw.len() as int)) == x + ".."@ + y
            &&& split_bounds(x + ".."@ + y) == Some((x, y))
            &&& trim(x) == x
            &&& trim(y) == y
        }),
{
    let dd = ".."@;
    let xy = x + dd + y;
    let a = kw + ": "@ + x + dd + y;
    assert(a =~= kw + (": "@ + xy));
    assert(a[0] == kw[0]);
    assert(a.last() == y.last());
    lemma_trim_plain(a);
    assert(a.take(kw.len() as int) =~= kw);
    assert(a.skip(kw.len() as int) =~= ": "@ + xy);
    assert(xy[0] == x[0]);
    assert(xy.last() == y.last());
    lemma_args_after_colon(xy);
    lemma_split_bound_texts(x, y);
    lemma_trim_plain(x);
    lemma_trim_plain(y);
}

/// A float literal is not empty.
proof fn lemma_float_literal_nonempty(s: Seq<char>)
    requires
        is_float_literal(s),
    ensures
        s.len() > 0,
{
    reveal_strlit("inf");
    reveal_strlit("infinity");
    reveal_strlit("nan");
    if s.len() == 0 {
        assert(unsigned_part(s) =~= Seq::<char>::empty());
        let e = Seq::<char>::empty();
        assert(first_exp(e) == 0);
        assert(e.take(0) =~= e);
        assert(first_dot(e) == 0);
    }
}

/// `boolean` and `continuous`, in any ASCII case, name their types.
proof fn lemma_word_annotations(a: Seq<char>)
    ensures
        eq_ignore_ascii_case(a, "boolean"@) ==> spec_parse_eval_type(a) == Some(EvalTypeView::Boolean),
        eq_ignore_ascii_case(a, "continuous"@) ==> spec_parse_eval_type(a) == Some(
            EvalTypeView::Continuous,
        ),
{
    reveal_strlit("boolean");
    reveal_strlit("continuous");
    if eq_ignore_ascii_case(a, "boolean"@) || eq_ignore_ascii_case(a, "continuous"@) {
        let w = if eq_ignore_ascii_case(a, "boolean"@) {
            "boolean"@
        } else {
            "continuous"@
        };
        lemma_special_letters(a, w);
        lemma_trim_plain(a);
        if eq_ignore_ascii_case(a, "continuous"@) {
            assert(!eq_ignore_ascii_case(a, "boolean"@));
        }
    }
}

/// `ordinal` alone names the 1..5 scale.
proof fn lemma_default_ordinal()
    ensures
        spec_parse_eval_type("ordinal"@) == Some(EvalTypeView::Ordinal { min: 1, max: 5 }),
{
    reveal_strlit("boolean");
    reveal_strlit("continuous");
    reveal_strlit("ordinal");
    reveal_strlit("..");
    let o = "ordinal"@;
    lemma_trim_plain(o);
    assert(!eq_ignore_ascii_case(o, "boolean"@));
    assert(!eq_ignore_ascii_case(o, "continuous"@));
    assert(o.take(o.len() as int) =~= o);
    assert(o.skip(o.len() as int) =~= Seq::<char>::empty());
    assert(trim_start(Seq::<char>::empty()) =~= Seq::<char>::empty());
    assert(annotation_args(Seq::empty()) =~= Seq::<char>::empty());
}

/// `keyword: low..high` is not a word annotation.
proof fn lemma_not_word(ann: Seq<char>)
    requires
        ann.len() > 10,
    ensures
        !eq_ignore_ascii_case(ann, "boolean"@),
        !eq_ignore_ascii_case(ann, "continuous"@),
{
    reveal_strlit("boolean");
    reveal_strlit("continuous");
}

/// A text that parses as a `u32` is a bound text.
proof fn lemma_u32_text_is_bound(x: Seq<char>)
    requires
        spec_parse_u32(x) is Some,
    ensures
        is_bound_text(x),
{
    let d = unsigned_digits(x);
    let off: int = if x.len() > 0 && x[0] == '+' {
        1
    } else {
        0
    };
    assert(d =~= x.skip(off));
    assert forall|i: int| 0 <= i < x.len() implies !is_ws(#[trigger] x[i]) && x[i] != '.' by {
        if i >= off {
            assert(x[i] == d[i - off]);
            assert(is_digit(d[i - off]));
        }
    }
    assert(x.last() == x[x.len() - 1]);
}

/// `ordinal: MIN..MAX` with bounds that parse as `u32`s names that scale.
proof fn lemma_ordinal_annotation(min: Seq<char>, max: Seq<char>)
    requires
        spec_parse_u32(min) is Some,
        spec_parse_u32(max) is Some,
    ensures
        spec_parse_eval_type("ordinal: "@ + min + ".."@ + max) == Some(
            EvalTypeView::Ordinal { min: spec_parse_u32(min)->0, max: spec_parse_u32(max)->0 },
        ),
{
    reveal_strlit("ordinal");
    reveal_strlit("ordinal: ");
    reveal_strlit(": ");
    reveal_strlit("..");
    let o = "ordinal"@;
    assert(no_ws(o));
    lemma_u32_text_is_bound(min);
    lemma_u32_text_is_bound(max);
    lemma_annotation_bounds(o, min, max);
    assert("ordinal: "@ =~= o + ": "@);
    let ann = "ordinal: "@ + min + ".."@ + max;
    assert(ann =~= o + ": "@ + min + ".."@ + max);
    lemma_not_word(ann);
}

/// `range: LOW..HIGH` with float bounds names that band.
#[verifier::spinoff_prover]
#[verifier::rlimit(40)]
proof fn lemma_range_annotation(low: Seq<char>, high: Seq<char>)
    requires
        is_float_literal(low),
        is_float_literal(high),
        low.last() != '.',
    ensures
        spec_parse_eval_type("range: "@ + low + ".."@ + high) == Some(
            EvalTypeView::Range { low, high },
        ),
{
    reveal_strlit("range");
    reveal_strlit("range: ");
    reveal_strlit("ordinal");
    reveal_strlit(": ");
    reveal_strlit("..");
    lemma_float_literal_chars(low);
    lemma_float_literal_chars(high);
    lemma_float_literal_nonempty(low);
    lemma_float_literal_nonempty(high);
    let r = "range"@;
    assert(no_ws(r));
    lemma_annotation_bounds(r, low, high);
    assert("range: "@ =~= r + ": "@);
    let ann = "range: "@ + low + ".."@ + high;
    assert(ann =~= r + ": "@ + low + ".."@ + high);
    lemma_not_word(ann);
    assert(!starts_with(ann, "ordinal"@)) by {
        assert(ann[0] == 'r');
        if starts_with(ann, "ordinal"@) {
            assert(ann.take(7)[0] == ann[0]);
        }
    }
}

/// A float literal followed by whitespace has no `".."` and does not end
/// with a dot.
proof fn lemma_low_then_ws(low: Seq<char>, w1: Seq<char>)
    requires
        is_float_literal(low),
        low.last() != '.',
        all_ws(w1),
    ensures
        (low + w1).len() > 0,
        no_double_dot(low + w1),
        (low + w1).last() != '.',
{
    lemma_float_literal_chars(low);
    lemma_float_literal_nonempty(low);
    let x = low + w1;
    if w1.len() > 0 {
        assert(x.last() == w1.last());
        assert(is_ws(w1[w1.len() - 1]));
    } else {
        assert(x.last() == low.last());
    }
    assert forall|i: int| 0 <= i < x.len() - 1 implies !(#[trigger] x[i] == '.' && x[i + 1] == '.') by {
        if i + 1 < low.len() {
            assert(x[i] == low[i] && x[i + 1] == low[i + 1]);
        } else if i + 1 == low.len() {
            assert(x[i + 1] == w1[0]);
            assert(is_ws(w1[0]));
        } else {
            assert(x[i] == w1[i - low.len()]);
            assert(is_ws(w1[i - low.len()]));
        }
    }
}

/// How a range annotation with whitespace around its `".."` splits.
#[verifier::spinoff_prover]
proof fn lemma_spaced_range_text(low: Seq<char>, w1: Seq<char>, w2: Seq<char>, high: Seq<char>)
    requires
        is_float_literal(low),
        is_float_literal(high),
        low.last() != '.',
        all_ws(w1),
        all_ws(w2),
    ensures
        ({
            let ann = "range: "@ + low + w1 + ".."@ + w2 + high;
            let xy = (low + w1) + ".."@ + (w2 + high);
            &&& trim(ann) == ann
            &&& starts_with(ann, "range"@)
            &&& !starts_with(ann, "ordinal"@)
            &&& !eq_ignore_ascii_case(ann, "boolean"@)
            &&& !eq_ignore_ascii_case(ann, "continuous"@)
            &&& annotation_args(ann.skip("range"@.len() as int)) == xy
            &&& split_bounds(xy) == Some((low + w1, w2 + high))
            &&& trim(low + w1) == low
            &&& trim(w2 + high) == high
        }),
{
    reveal_strlit("range");
    reveal_strlit("range: ");
    reveal_strlit("ordinal");
    reveal_strlit("..");
    lemma_float_literal_chars(low);
    lemma_float_literal_chars(high);
    lemma_float_literal_nonempty(low);
    lemma_float_literal_nonempty(high);
    lemma_low_then_ws(low, w1);
    let x = low + w1;
    let y = w2 + high;
    let xy = x + ".."@ + y;
    let r = "range"@;
    let ann = "range: "@ + low + w1 + ".."@ + w2 + high;
    reveal_strlit(": ");
    assert("range: "@ =~= r + ": "@);
    assert(ann =~= r + (": "@ + xy));
    lemma_split_bound_texts(x, y);
    assert(ann[0] == 'r');
    assert(ann.last() == high.last());
    assert(!is_ws(high[high.len() - 1]));
    assert(!is_ws(low[0]));
    lemma_trim_plain(ann);
    assert(ann.take(5) =~= r);
    assert(ann.skip(5) =~= ": "@ + xy);
    assert(xy[0] == low[0]);
    assert(xy.last() == high.last());
    lemma_args_after_colon(xy);
    lemma_trim_append_ws(low, w1);
    lemma_trim_plain(low);
    lemma_trim_prepend_ws(w2, high);
    lemma_trim_plain(high);
    lemma_not_word(ann);
    if starts_with(ann, "ordinal"@) {
        assert(ann.take(7)[0] == ann[0]);
    }
}

/// Whitespace before or after the `".."` of a range annotation does not
/// matter: `range: LOW W1..W2 HIGH`, for float literals `LOW` and `HIGH`
/// (the low one not ending with a dot) and whitespace `W1`, `W2`, names the
/// range from `LOW` to `HIGH`, as `range: LOW..HIGH` does.
pub proof fn law_range_bounds_ignore_whitespace(
    low: Seq<char>,
    w1: Seq<char>,
    w2: Seq<char>,
    high: Seq<char>,
)
    requires
        is_float_literal(low),
        is_float_literal(high),
        low.last() != '.',
        all_ws(w1),
        all_ws(w2),
    ensures
        spec_parse_eval_type("range: "@ + low + w1 + ".."@ + w2 + high) == Some(
            EvalTypeView::Range { low, high },
        ),
        spec_parse_eval_type("range: "@ + low + w1 + ".."@ + w2 + high) == spec_parse_eval_type(
            "range: "@ + low + ".."@ + high,
        ),
{
    lemma_spaced_range_text(low, w1, w2, high);
    lemma_range_annotation(low, high);
}

/// The annotations of the harness format name their eval types:
/// `boolean` and `continuous` in any ASCII case, `ordinal` alone (the 1..5
/// scale), `ordinal: MIN..MAX` with bounds that parse as `u32`s, and
/// `range: LOW..HIGH` with bounds that `f64` parses (the low bound not
/// ending with a dot, which would start the `".."`).
pub proof fn law_annotations_name_their_types(
    a: Seq<char>,
    min: Seq<char>,
    max: Seq<char>,
    low: Seq<char>,
    high: Seq<char>,
)
    ensures
        eq_ignore_ascii_case(a, "boolean"@) ==> spec_parse_eval_type(a) == Some(EvalTypeView::Boolean),
        eq_ignore_ascii_case(a, "continuous"@) ==> spec_parse_eval_type(a) == Some(
            EvalTypeView::Continuous,
        ),
        spec_parse_eval_type("ordinal"@) == Some(EvalTypeView::Ordinal { min: 1, max: 5 }),
        spec_parse_u32(min) is Some && spec_parse_u32(max) is Some ==> spec_parse_eval_type("ordinal: "@ + min + ".."@ + max) == Some(
            EvalTypeView::Ordinal { min: spec_parse_u32(min)->0, max: spec_parse_u32(max)->0 },
        ),
        is_float_literal(low) && is_float_literal(high) && low.last() != '.'
            ==> spec_parse_eval_type("range: "@ + low + ".."@ + high) == Some(
            EvalTypeView::Range { low, high },
        ),
{
    lemma_word_annotations(a);
    lemma_default_ordinal();
    if spec_parse_u32(min) is Some && spec_parse_u32(max) is Some {
        lemma_ordinal_annotation(min, max);
    }
    if is_float_literal(low) && is_float_literal(high) && low.last() != '.' {
        lemma_range_annotation(low, high);
    }
}

// ---------------------------------------------------------------------------
// Eval entries
// ---------------------------------------------------------------------------

/// A char that does not occur in `a` is found in `a + b` where `b` has it.
pub(crate) proof fn lemma_find_char_after(a: Seq<char>, b: Seq<char>, c: char)
    requires
        find(a, seq![c]) is None,
    ensures
        find(a + b, seq![c]) == (match find(b, seq![c]) {
            Some(k) => Some(a.len() + k),
            None => None,
        }),
{
    let p = seq![c];
    let s = a + b;
    lemma_find_occurs(a, p, 0);
    lemma_find_occurs(b, p, 0);
    assert forall|k: int| 0 <= k < a.len() implies !occurs_at(s, p, k) by {
        if occurs_at(s, p, k) {
            assert(s.subrange(k, k + 1) =~= a.subrange(k, k + 1));
            assert(occurs_at(a, p, k));
        }
    }
    match find(b, p) {
        Some(k) => {
            assert(s.subrange(a.len() + k, a.len() + k + 1) =~= b.subrange(k, k + 1));
            assert forall|j: int| a.len() <= j < a.len() + k implies !occurs_at(s, p, j) by {
                if occurs_at(s, p, j) {
                    assert(s.subrange(j, j + 1) =~= b.subrange(j - a.len(), j - a.len() + 1));
                    assert(occurs_at(b, p, j - a.len()));
                }
            }
            lemma_find_first(s, p, 0, a.len() + k);
        },
        None => {
            assert forall|j: int| 0 <= j implies !occurs_at(s, p, j) by {
                if occurs_at(s, p, j) && j >= a.len() {
                    assert(s.subrange(j, j + 1) =~= b.subrange(j - a.len(), j - a.len() + 1));
                    assert(occurs_at(b, p, j - a.len()));
                }
            }
            lemma_find_none(s, p, 0);
        },
    }
}

/// A char that `s` does not hold is not found in it.
pub(crate) proof fn lemma_no_char(s: Seq<char>, c: char)
    requires
        forall|i: int| 0 <= i < s.len() ==> s[i] != c,
    ensures
        find(s, seq![c]) is None,
{
    assert forall|j: int| 0 <= j implies !occurs_at(s, seq![c], j) by {
        if occurs_at(s, seq![c], j) {
            assert(s.subrange(j, j + 1)[0] == s[j]);
        }
    }
    lemma_find_none(s, seq![c], 0);
}

/// With no occurrence from `i` on, nothing is found from `i`.
proof fn lemma_find_none(s: Seq<char>, p: Seq<char>, i: int)
    requires
        0 <= i,
        forall|j: int| i <= j ==> !occurs_at(s, p, j),
    ensures
        find_from(s, p, i) is None,
    decreases s.len() + 1 - i,
{
    if i + p.len() <= s.len() {
        lemma_find_none(s, p, i + 1);
    }
}

/// A name as the harness format writes it: not empty, trimmed, not wrapped
/// in backquotes, holding neither `": "`, `'['` nor `'—'`, and not ending
/// with `':'`.
pub open spec fn is_plain_eval_name(name: Seq<char>) -> bool {
    &&& name.len() > 0
    &&& trim(name) == name
    &&& name[0] != '`'
    &&& name.last() != '`'
    &&& name.last() != ':'
    &&& find(name, ": "@) is None
    &&& find(name, seq!['[']) is None
    &&& !name.contains('—')
}

/// `name: description` reads as that name and the trimmed description.
proof fn lemma_entry_inner_plain(name: Seq<char>, d: Seq<char>, t: Option<EvalTypeView>)
    requires
        is_plain_eval_name(name),
    ensures
        spec_parse_eval_entry_inner(name + ": "@ + d, t) == Some(
            EvalView { name, description: trim(d), eval_type: t },
        ),
{
    reveal_strlit(": ");
    reveal_strlit("`");
    let cs = ": "@;
    let text = name + cs + d;
    let n = name.len() as int;
    assert(text.subrange(n, n + 2) =~= cs);
    lemma_find_occurs(name, cs, 0);
    assert forall|k: int| 0 <= k < n implies !occurs_at(text, cs, k) by {
        if occurs_at(text, cs, k) {
            if k + 2 <= n {
                assert(text.subrange(k, k + 2) =~= name.subrange(k, k + 2));
                assert(occurs_at(name, cs, k));
            } else {
                assert(text.subrange(k, k + 2)[1] == text[k + 1]);
                assert(text[k + 1] == ':');
            }
        }
    }
    lemma_find_first(text, cs, 0, n);
    assert(text.take(n) =~= name);
    assert(text.skip(n + 2) =~= d);
    assert(!starts_with(name, "`"@)) by {
        if starts_with(name, "`"@) {
            assert(name.take(1)[0] == name[0]);
        }
    }
    assert(trim_start_matches(name, "`"@) == name);
    assert(trim_end_char(name, '`') == name);
}

/// An untyped entry reads back: a `'['` in it comes after the `": "`
/// that ends the name, so it is no annotation.
proof fn lemma_untyped_entry(name: Seq<char>, description: Seq<char>)
    requires
        is_plain_eval_name(name),
    ensures
        spec_parse_eval_entry(name + ": "@ + description) == Some(
            EvalView { name, description: trim(description), eval_type: None },
        ),
{
    reveal_strlit(": ");
    let lb = seq!['['];
    let cs = ": "@;
    let text = name + cs + description;
    let n = name.len() as int;
    lemma_entry_inner_plain(name, description, None);
    assert(find(name + cs, lb) is None) by {
        lemma_no_char(cs, '[');
        lemma_find_char_after(name, cs, '[');
    }
    lemma_find_char_after(name + cs, description, '[');
    match find(description, lb) {
        Some(k) => {
            lemma_find_occurs(description, lb, 0);
            let bs = n + 2 + k;
            let head = text.take(bs);
            assert(head.subrange(n, n + 2) =~= cs);
            assert(occurs_at(head, cs, n));
            lemma_find_occurs(head, cs, 0);
            assert(find(head, cs) is Some);
            assert(!is_name_part(head));
        },
        None => {},
    }
}

/// A plain name followed by a space is a name alone.
proof fn lemma_name_then_space(name: Seq<char>)
    requires
        is_plain_eval_name(name),
    ensures
        is_name_part(name + seq![' ']),
{
    reveal_strlit(": ");
    reveal_strlit(" — ");
    let x = name + seq![' '];
    let n = name.len() as int;
    lemma_find_occurs(name, ": "@, 0);
    assert forall|k: int| 0 <= k implies !occurs_at(x, ": "@, k) by {
        if occurs_at(x, ": "@, k) {
            assert(x.subrange(k, k + 2)[0] == x[k]);
            assert(x.subrange(k, k + 2)[1] == x[k + 1]);
            if k + 2 <= n {
                assert(x.subrange(k, k + 2) =~= name.subrange(k, k + 2));
                assert(occurs_at(name, ": "@, k));
            } else {
                assert(x[k] == name.last());
            }
        }
    }
    lemma_find_none(x, ": "@, 0);
    assert forall|k: int| 0 <= k implies !occurs_at(x, " — "@, k) by {
        if occurs_at(x, " — "@, k) {
            assert(x.subrange(k, k + 3)[1] == x[k + 1]);
            assert(x[k + 1] == '—');
            assert(k + 1 < n);
            assert(name[k + 1] == '—');
            assert(name.contains('—'));
        }
    }
    lemma_find_none(x, " — "@, 0);
}

/// A typed entry reads back.
#[verifier::spinoff_prover]
proof fn lemma_typed_entry(name: Seq<char>, annotation: Seq<char>, description: Seq<char>)
    requires
        is_plain_eval_name(name),
        find(annotation, seq![']']) is None,
    ensures
        spec_parse_eval_entry(name + " ["@ + annotation + "]: "@ + description) == Some(
            EvalView {
                name,
                description: trim(description),
                eval_type: spec_parse_eval_type(annotation),
            },
        ),
{
    assert(name + " ["@ + annotation + "]: "@ + description =~= name + " ["@ + annotation + (
    "]: "@ + description));
    lemma_typed_entry_split(name, annotation, description);
}

/// A typed entry, its closing bracket taken with the rest, reads back.
#[verifier::spinoff_prover]
proof fn lemma_typed_entry_split(name: Seq<char>, annotation: Seq<char>, description: Seq<char>)
    requires
        is_plain_eval_name(name),
        find(annotation, seq![']']) is None,
    ensures
        spec_parse_eval_entry(name + " ["@ + annotation + ("]: "@ + description)) == Some(
            EvalView {
                name,
                description: trim(description),
                eval_type: spec_parse_eval_type(annotation),
            },
        ),
{
    reveal_strlit(": ");
    reveal_strlit(" [");
    reveal_strlit("]: ");
    let lb = seq!['['];
    let rb = seq![']'];
    let rest = "]: "@ + description;
    let t = name + " ["@ + annotation + rest;
    let n = name.len() as int;
    let bs = n + 1;
    assert(t =~= (name + seq![' ']) + (lb + (annotation + rest)));
    assert(find(name + seq![' '], lb) is None) by {
        lemma_no_char(seq![' '], '[');
        lemma_find_char_after(name, seq![' '], '[');
    }
    lemma_find_char_after(name + seq![' '], lb + (annotation + rest), '[');
    assert(find(lb + (annotation + rest), lb) == Some(0int)) by {
        assert((lb + (annotation + rest)).subrange(0, 1) =~= lb);
        lemma_find_first(lb + (annotation + rest), lb, 0, 0);
    }
    let tail = t.skip(bs);
    assert(tail =~= (lb + annotation) + rest);
    assert(find(lb + annotation, rb) is None) by {
        lemma_no_char(lb, ']');
        lemma_find_char_after(lb, annotation, ']');
    }
    lemma_find_char_after(lb + annotation, rest, ']');
    assert(find(rest, rb) == Some(0int)) by {
        assert(rest.subrange(0, 1) =~= rb);
        lemma_find_first(rest, rb, 0, 0);
    }
    let be: int = annotation.len() as int + 1;
    assert(t.subrange(bs + 1, bs + be) =~= annotation);
    assert(t.take(bs) =~= name + seq![' ']);
    lemma_name_then_space(name);
    assert(t.skip(bs + be + 1) =~= ": "@ + description);
    assert(all_ws(seq![' ']));
    lemma_trim_append_ws(name, seq![' ']);
    lemma_entry_inner_plain(name, description, spec_parse_eval_type(annotation));
    assert(trim(name + seq![' ']) == name);
    assert(find(t, lb) == Some(bs));
    assert(find(tail, rb) == Some(be));
    assert(t.skip(bs).skip(0) =~= tail);
    let remaining = trim(t.take(bs)) + t.skip(bs + be + 1);
    assert(remaining =~= name + ": "@ + description);
    assert(spec_parse_eval_entry(t) == spec_parse_eval_entry_inner(
        remaining,
        spec_parse_eval_type(t.subrange(bs + 1, bs + be)),
    ));
}

/// The entry `name: description`, and `name [annotation]: description`, read
/// back as the name, the trimmed description and the type the annotation
/// names (no type without one); brackets in the description of an untyped
/// entry stay in it. The annotation must not hold a `']'`.
pub proof fn law_eval_entries_read_back(name: Seq<char>, annotation: Seq<char>, description: Seq<char>)
    requires
        is_plain_eval_name(name),
    ensures
        spec_parse_eval_entry(name + ": "@ + description) == Some(
            EvalView { name, description: trim(description), eval_type: None },
        ),
        find(annotation, seq![']']) is None ==> spec_parse_eval_entry(
            name + " ["@ + annotation + "]: "@ + description,
        ) == Some(
            EvalView {
                name,
                description: trim(description),
                eval_type: spec_parse_eval_type(annotation),
            },
        ),
{
    lemma_untyped_entry(name, description);
    if find(annotation, seq![']']) is None {
        lemma_typed_entry(name, annotation, description);
    }
}


// ---------------------------------------------------------------------------
// The code after the harness comment
// ---------------------------------------------------------------------------

/// What follows a text does not move the first occurrence found in it.
proof fn lemma_find_from_extend(s: Seq<char>, t: Seq<char>, p: Seq<char>, i: int)
    requires
        find_from(s, p, i) is Some,
    ensures
        find_from(s + t, p, i) == find_from(s, p, i),
    decreases s.len() + 1 - i,
{
    if occurs_at(s, p, i) {
        assert((s + t).subrange(i, i + p.len()) =~= s.subrange(i, i + p.len()));
    } else {
        if occurs_at(s + t, p, i) {
            assert((s + t).subrange(i, i + p.len()) =~= s.subrange(i, i + p.len()));
        }
        lemma_find_from_extend(s, t, p, i + 1);
    }
}

/// What follows a closed docstring does not change it.
proof fn lemma_docstring_extend(t: Seq<char>, delim: Seq<char>, code: Seq<char>)
    requires
        docstring_with(t, delim) is Some,
    ensures
        docstring_with(t + code, delim) == docstring_with(t, delim),
{
    let d = delim.len() as int;
    assert((t + code).take(d) =~= t.take(d));
    let rest = t.skip(d);
    assert((t + code).skip(d) =~= rest + code);
    lemma_find_from_extend(rest, code, delim, 0);
    let end = find(rest, delim)->0;
    lemma_find_occurs(rest, delim, 0);
    assert((rest + code).take(end) =~= rest.take(end));
}

/// A text that starts with a char that is not whitespace keeps what follows
/// it when its leading whitespace goes.
proof fn lemma_trim_start_extend(c: Seq<char>, code: Seq<char>)
    requires
        trim_start(c).len() > 0,
    ensures
        trim_start(c + code) == trim_start(c) + code,
{
    lemma_trim_start_append(c, code);
}

/// What follows Python source that holds code does not move where its
/// code starts.
proof fn lemma_python_start_extend(c: Seq<char>, code: Seq<char>, in_comment: bool)
    requires
        python_code_start(c, in_comment).len() > 0,
    ensures
        python_code_start(c + code, in_comment) == python_code_start(c, in_comment) + code,
    decreases c.len(),
{
    if c.len() > 0 {
        assert((c + code)[0] == c[0]);
        assert((c + code).drop_first() =~= c.drop_first() + code);
        if in_comment {
            lemma_python_start_extend(c.drop_first(), code, c[0] != '\n');
        } else if is_ws(c[0]) {
            lemma_python_start_extend(c.drop_first(), code, false);
        } else if c[0] == '#' {
            lemma_python_start_extend(c.drop_first(), code, true);
        }
    }
}

/// The code after a Python module docstring does not change it.
proof fn lemma_python_code_after(c: Seq<char>, code: Seq<char>)
    requires
        docstring_with(python_code_start(c, false), "\"\"\""@) is Some,
    ensures
        spec_python_doc(c + code) == spec_python_doc(c),
{
    reveal_strlit("\"\"\"");
    lemma_python_start_extend(c, code, false);
    lemma_docstring_extend(python_code_start(c, false), "\"\"\""@, code);
}

/// The code after a closed `/** ... */` comment does not change it.
proof fn lemma_jsdoc_code_after(c: Seq<char>, code: Seq<char>)
    requires
        starts_with(trim_start(c), "/**"@),
        find(trim_start(c), "*/"@) is Some,
        find(trim_start(c), "*/"@)->0 >= 3,
    ensures
        spec_jsdoc(c + code) == spec_jsdoc(c),
{
    reveal_strlit("/**");
    let t = trim_start(c);
    lemma_trim_start_extend(c, code);
    assert((t + code).take(3) =~= t.take(3));
    lemma_find_from_extend(t, code, "*/"@, 0);
    let end = find(t, "*/"@)->0;
    lemma_find_occurs(t, "*/"@, 0);
    assert((t + code).subrange(3, end) =~= t.subrange(3, end));
}

/// Whether the first line of `code` is not one that starts, once trimmed,
/// with `marker`.
pub open spec fn first_line_not_marked(code: Seq<char>, marker: Seq<char>) -> bool {
    lines(code).len() == 0 || !starts_with(trim(lines(code)[0]), marker)
}

/// The lines of newline-free lines, each after `marker`.
proof fn lemma_prefixed_no_newlines(body: Seq<Seq<char>>, mk: Seq<char>)
    requires
        no_newlines(body),
        !mk.contains('\n'),
    ensures
        no_newlines(prefixed(body, mk)),
{
    let r = prefixed(body, mk);
    assert forall|i: int| 0 <= i < r.len() implies !(#[trigger] r[i]).contains('\n') by {
        assert(r[i] == mk + body[i]);
        if r[i].contains('\n') {
            let j = choose|j: int| 0 <= j < r[i].len() && r[i][j] == '\n';
            if j < mk.len() {
                assert(mk[j] == '\n');
                assert(mk.contains('\n'));
            } else {
                assert(body[i][j - mk.len()] == '\n');
                assert(body[i].contains('\n'));
            }
        }
    }
}

/// The lines of a comment followed by a newline and code: the comment's
/// lines, each with the same trim as alone, then the lines of the code.
proof fn lemma_commented_file_lines(body: Seq<Seq<char>>, mk: Seq<char>, code: Seq<char>)
    requires
        no_newlines(body),
        body.len() > 0,
        mk.len() > 0,
        !mk.contains('\n'),
    ensures
        ({
            let c = commented_source(body, mk);
            let ls = lines(c);
            let l1 = lines(c + seq!['\n']);
            &&& lines(c + "\n"@ + code) == l1 + lines(code)
            &&& l1.len() == ls.len()
            &&& forall|k: int| 0 <= k < l1.len() ==> trim(#[trigger] l1[k]) == trim(ls[k])
        }),
{
    reveal_strlit("\n");
    assert("\n"@ =~= seq!['\n']);
    let r = prefixed(body, mk);
    let c = commented_source(body, mk);
    let nl = seq!['\n'];
    lemma_prefixed_no_newlines(body, mk);
    let a = c + nl;
    assert(c + "\n"@ + code =~= a + code);
    assert(a.last() == '\n');
    lemma_lines_after_append(a, code, Seq::empty());
    lemma_lines_join_newline(r);
    lemma_lines_join(r);
    assert(r.last() == mk + body.last());
    assert(r.last().len() > 0);
    let ls = lines(c);
    let l1 = lines(a);
    assert forall|k: int| 0 <= k < l1.len() implies trim(#[trigger] l1[k]) == trim(ls[k]) by {
        lemma_trim_strip_cr(r[k]);
    }
}

/// A first run of lines that all satisfy `p` and end the text, or are
/// followed by one that does not, ends there.
proof fn lemma_first_from_run(ls: Seq<Seq<char>>, n: int, i: int, p: spec_fn(Seq<char>) -> bool)
    requires
        0 <= i <= n <= ls.len(),
        forall|k: int| 0 <= k < n ==> p(#[trigger] ls[k]),
        n == ls.len() || !p(ls[n]),
    ensures
        first_from(ls, i, negated(p)) == n,
    decreases n - i,
{
    if i < n {
        assert(p(ls[i]));
        lemma_first_from_run(ls, n, i + 1, p);
    } else if n < ls.len() {
        assert(negated(p)(ls[n]));
    }
}

/// The comment texts of lines depend on their trims alone.
proof fn lemma_comment_texts_by_trim(a: Seq<Seq<char>>, b: Seq<Seq<char>>, m: Seq<char>)
    requires
        a.len() == b.len(),
        forall|k: int| 0 <= k < a.len() ==> trim(#[trigger] a[k]) == trim(b[k]),
    ensures
        comment_texts(a, m) == comment_texts(b, m),
{
    let f = |l: Seq<char>| comment_text(l, m);
    assert forall|k: int| 0 <= k < a.len() implies #[trigger] f(a[k]) == f(b[k]) by {
        assert(trim(a[k]) == trim(b[k]));
    }
    assert(a.map_values(f) =~= b.map_values(f));
}

/// The code after a Rust module's `//!` comment does not change its doc comment.
proof fn lemma_rust_code_after(body: Seq<Seq<char>>, code: Seq<char>)
    requires
        no_newlines(body),
        body.len() > 0,
        first_line_not_marked(code, "//!"@),
    ensures
        spec_rust_doc(rust_source(body) + "\n"@ + code) == spec_rust_doc(rust_source(body)),
{
    reveal_strlit("//! ");
    reveal_strlit("//!");
    let m = "//!"@;
    let mk = "//! "@;
    assert(mk =~= m + seq![' ']);
    assert(!m.contains('\n'));
    assert(!mk.contains('\n')) by {
        assert(mk[3] == ' ');
    }
    lemma_commented_lines(body, m);
    lemma_commented_file_lines(body, mk, code);
    let c = rust_source(body);
    let ls = lines(c);
    let l1 = lines(c + seq!['\n']);
    let big = lines(c + "\n"@ + code);
    let p = rust_doc_pred();
    let n = l1.len() as int;
    assert forall|k: int| 0 <= k < n implies p(#[trigger] big[k]) by {
        assert(big[k] == l1[k]);
        assert(trim(l1[k]) == trim(ls[k]));
        assert(starts_with(trim(ls[k]), m));
    }
    if n < big.len() {
        assert(big[n] == lines(code)[0]);
    }
    lemma_first_from_run(big, n, 0, p);
    assert(p(big[0])) by {
        assert(big[0] == l1[0]);
        assert(trim(l1[0]) == trim(ls[0]));
        assert(starts_with(trim(ls[0]), m));
    }
    assert(first_from(big, 0, p) == 0);
    assert(first_run(big, p) =~= l1);
    assert forall|k: int| 0 <= k < ls.len() implies p(#[trigger] ls[k]) by {
        assert(starts_with(trim(ls[k]), m));
    }
    lemma_first_from_all(ls, 0, p);
    assert(p(ls[0]));
    assert(first_run(ls, p) =~= ls);
    lemma_comment_texts_by_trim(l1, ls, m);
}

/// A `//` comment line is no `package` clause.
proof fn lemma_comment_not_package(l: Seq<char>)
    requires
        is_go_comment(l),
    ensures
        !is_package_line(l),
{
    reveal_strlit("//");
    reveal_strlit("package ");
    let t = trim(l);
    assert(t.take(2)[0] == t[0]);
    if starts_with(t, "package "@) {
        assert(t.take(8)[0] == t[0]);
    }
}

/// With no line at or after `i` satisfying `p`, none is found.
proof fn lemma_first_from_none(ls: Seq<Seq<char>>, i: int, p: spec_fn(Seq<char>) -> bool)
    requires
        0 <= i,
        forall|k: int| 0 <= k < ls.len() ==> !p(#[trigger] ls[k]),
    ensures
        first_from(ls, i, p) == ls.len(),
    decreases ls.len() - i,
{
    if i < ls.len() {
        assert(!p(ls[i]));
        lemma_first_from_none(ls, i + 1, p);
    }
}

/// A run of `//` lines from the start reaches back to the start.
proof fn lemma_comment_run_all(ls: Seq<Seq<char>>, j: int)
    requires
        0 <= j <= ls.len(),
        forall|k: int| 0 <= k < j ==> is_go_comment(#[trigger] ls[k]),
    ensures
        comment_run_start(ls, j) == 0,
    decreases j,
{
    if j > 0 {
        assert(is_go_comment(ls[j - 1]));
        lemma_comment_run_all(ls, j - 1);
    }
}

/// Lines that are all `//` comments are their own package comment.
proof fn lemma_go_comments_only(ls: Seq<Seq<char>>)
    requires
        forall|k: int| 0 <= k < ls.len() ==> is_go_comment(#[trigger] ls[k]),
    ensures
        go_comment_block(ls) == ls,
{
    let q = go_comment_pred();
    let pk = go_package_pred();
    assert forall|k: int| 0 <= k < ls.len() implies !pk(#[trigger] ls[k]) by {
        lemma_comment_not_package(ls[k]);
    }
    lemma_first_from_none(ls, 0, pk);
    assert forall|k: int| 0 <= k < ls.len() implies q(#[trigger] ls[k]) by {
        assert(is_go_comment(ls[k]));
    }
    lemma_first_from_all(ls, 0, q);
    if ls.len() > 0 {
        assert(q(ls[0]));
        assert(first_from(ls, 0, q) == 0);
    }
    assert(first_run(ls, q) =~= ls);
}

/// Whether the first line of `code` is a `package` clause.
pub open spec fn opens_with_package(code: Seq<char>) -> bool {
    lines(code).len() > 0 && is_package_line(lines(code)[0])
}

/// The `package` clause and the code after a Go package comment do not
/// change the comment.
proof fn lemma_go_code_after(body: Seq<Seq<char>>, code: Seq<char>)
    requires
        no_newlines(body),
        body.len() > 0,
        opens_with_package(code),
    ensures
        spec_go_doc(go_source(body) + "\n"@ + code) == spec_go_doc(go_source(body)),
{
    reveal_strlit("// ");
    reveal_strlit("//");
    let m = "//"@;
    let mk = "// "@;
    assert(mk =~= m + seq![' ']);
    assert(!m.contains('\n'));
    assert(!mk.contains('\n')) by {
        assert(mk[2] == ' ');
    }
    lemma_commented_lines(body, m);
    lemma_commented_file_lines(body, mk, code);
    let c = go_source(body);
    let ls = lines(c);
    let l1 = lines(c + seq!['\n']);
    let big = lines(c + "\n"@ + code);
    let pk = go_package_pred();
    let n = l1.len() as int;
    assert forall|k: int| 0 <= k < n implies is_go_comment(#[trigger] big[k]) by {
        assert(big[k] == l1[k]);
        assert(trim(l1[k]) == trim(ls[k]));
        assert(starts_with(trim(ls[k]), m));
    }
    assert(big[n] == lines(code)[0]);
    assert(pk(big[n]));
    assert forall|k: int| 0 <= k < n implies !pk(#[trigger] big[k]) by {
        lemma_comment_not_package(big[k]);
    }
    lemma_first_from_found(big, n, 0, pk);
    lemma_comment_run_all(big, n);
    assert(go_comment_block(big) =~= l1);
    assert forall|k: int| 0 <= k < ls.len() implies is_go_comment(#[trigger] ls[k]) by {
        assert(starts_with(trim(ls[k]), m));
    }
    lemma_go_comments_only(ls);
    lemma_comment_texts_by_trim(l1, ls, m);
}

/// The first line at or after `i` that satisfies `p` is at `n` when none
/// before it does.
proof fn lemma_first_from_found(ls: Seq<Seq<char>>, n: int, i: int, p: spec_fn(Seq<char>) -> bool)
    requires
        0 <= i <= n < ls.len(),
        p(ls[n]),
        forall|k: int| i <= k < n ==> !p(#[trigger] ls[k]),
    ensures
        first_from(ls, i, p) == n,
    decreases n - i,
{
    if i < n {
        assert(!p(ls[i]));
        lemma_first_from_found(ls, n, i + 1, p);
    }
}

/// The code after the harness comment does not change the harness: not in
/// Rust, where the code follows the comment on a new line whose first line
/// is no `//!` line (which would continue the comment); not in Go, where the
/// `package` clause follows the comment directly; nor after a Python
/// docstring or a `/** ... */` comment that the same conditions close as in
/// the comment-syntax law.
pub proof fn law_code_after_the_comment_changes_nothing(body: Seq<Seq<char>>, code: Seq<char>)
    requires
        no_newlines(body),
    ensures
        body.len() > 0 && first_line_not_marked(code, "//!"@) ==> spec_extract_harness(
            rust_source(body) + "\n"@ + code,
            Language::Rust,
        ) == spec_extract_harness(rust_source(body), Language::Rust),
        body.len() > 0 && opens_with_package(code) ==> spec_extract_harness(
            go_source(body) + "\n"@ + code,
            Language::Go,
        ) == spec_extract_harness(go_source(body), Language::Go),
        find(join(body, "\n"@), "\"\"\""@) is None ==> spec_extract_harness(
            python_source(body) + code,
            Language::Python,
        ) == spec_extract_harness(python_source(body), Language::Python),
        forall|lang: Language|
            uses_jsdoc(lang) && no_line_holds(body, "*/"@) ==> #[trigger] spec_extract_harness(
                jsdoc_source(body) + code,
                lang,
            ) == spec_extract_harness(jsdoc_source(body), lang),
{
    if body.len() > 0 && first_line_not_marked(code, "//!"@) {
        lemma_rust_code_after(body, code);
    }
    if body.len() > 0 && opens_with_package(code) {
        lemma_go_code_after(body, code);
    }
    if find(join(body, "\n"@), "\"\"\""@) is None {
        lemma_python_docstring_text(body);
        lemma_python_code_after(python_source(body), code);
    }
    if no_line_holds(body, "*/"@) {
        lemma_jsdoc_block(body);
        lemma_jsdoc_code_after(jsdoc_source(body), code);
    }
}



// ---------------------------------------------------------------------------
// The harness format reads back
// ---------------------------------------------------------------------------

/// Text that is one line and neither starts nor ends with whitespace.
pub open spec fn is_line_text(x: Seq<char>) -> bool {
    &&& x.len() > 0
    &&& !is_ws(x[0])
    &&& !is_ws(x.last())
    &&& !x.contains('\n')
}

/// The list items `- x` of the texts `xs`.
pub open spec fn list_items(xs: Seq<Seq<char>>) -> Seq<Seq<char>> {
    xs.map_values(|x: Seq<char>| "- "@ + x)
}

/// The lines of a harness as the format writes it: the module line, then
/// the `Spec`, `Agentic Contracts` and `Evals` sections, each after a blank
/// line and holding its items.
pub open spec fn harness_document(
    module: Seq<char>,
    spec: Seq<Seq<char>>,
    contracts: Seq<Seq<char>>,
    entries: Seq<Seq<char>>,
) -> Seq<Seq<char>> {
    seq!["# Module: "@ + module, Seq::empty(), "## Spec"@] + list_items(spec) + seq![
        Seq::empty(),
        "## Agentic Contracts"@,
    ] + list_items(contracts) + seq![Seq::empty(), "## Evals"@] + list_items(entries)
}

/// The evals that the entries describe, in order, leaving out those that
/// do not parse.
pub open spec fn read_entries(entries: Seq<Seq<char>>) -> Seq<EvalView>
    decreases entries.len(),
{
    if entries.len() == 0 {
        Seq::empty()
    } else {
        (match spec_parse_eval_entry(entries[0]) {
            Some(e) => seq![e],
            None => Seq::empty(),
        }) + read_entries(entries.drop_first())
    }
}

/// A text that neither starts nor ends with whitespace is its own trim.
proof fn lemma_trim_line_text(x: Seq<char>)
    requires
        x.len() > 0,
        !is_ws(x[0]),
        !is_ws(x.last()),
    ensures
        trim(x) == x,
        trim_start(x) == x,
        trim_end(x) == x,
{
}

/// A list item is its own trim, and in a section it adds its text.
proof fn lemma_item_line(x: Seq<char>)
    requires
        is_line_text(x),
    ensures
        trim("- "@ + x) == "- "@ + x,
        ("- "@ + x).skip(2) == x,
        !("- "@ + x).contains('\n'),
        !crate::parse::is_module_line("- "@ + x),
        "- "@ + x != "## Spec"@,
        "- "@ + x != "## Agentic Contracts"@,
        "- "@ + x != "## Evals"@,
        !starts_with("- "@ + x, "## "@),
        starts_with("- "@ + x, "- "@),
{
    reveal_strlit("- ");
    reveal_strlit("# Module:");
    reveal_strlit("# Module ");
    reveal_strlit("## Spec");
    reveal_strlit("## Agentic Contracts");
    reveal_strlit("## Evals");
    reveal_strlit("## ");
    let l = "- "@ + x;
    assert(l[0] == '-');
    assert(l.last() == x.last());
    lemma_trim_line_text(l);
    assert(l.skip(2) =~= x);
    assert(l.take(2) =~= "- "@);
    assert(!l.contains('\n')) by {
        if l.contains('\n') {
            let j = choose|j: int| 0 <= j < l.len() && l[j] == '\n';
            assert(j >= 2);
            assert(x[j - 2] == '\n');
            assert(x.contains('\n'));
        }
    }
    if starts_with(l, "# Module:"@) {
        assert(l.take(9)[0] == l[0]);
    }
    if starts_with(l, "# Module "@) {
        assert(l.take(9)[0] == l[0]);
    }
    if starts_with(l, "## "@) {
        assert(l.take(3)[0] == l[0]);
    }
    assert("## Spec"@[0] == '#');
    assert("## Agentic Contracts"@[0] == '#');
    assert("## Evals"@[0] == '#');
}

/// List items, being their own trims and not blank, are their own significant lines.
proof fn lemma_significant_items(xs: Seq<Seq<char>>)
    requires
        forall|i: int| 0 <= i < xs.len() ==> is_line_text(#[trigger] xs[i]),
    ensures
        significant(list_items(xs)) == list_items(xs),
        no_newlines(list_items(xs)),
    decreases xs.len(),
{
    let ls = list_items(xs);
    assert forall|i: int| 0 <= i < ls.len() implies !(#[trigger] ls[i]).contains('\n') by {
        lemma_item_line(xs[i]);
    }
    if xs.len() > 0 {
        lemma_item_line(xs[0]);
        lemma_significant_items(xs.drop_first());
        assert(ls.drop_first() =~= list_items(xs.drop_first()));
        assert(ls =~= seq![ls[0]] + ls.drop_first());
    }
}

/// Reading items in the `Spec` section adds their texts to the spec.
proof fn lemma_fold_spec_items(xs: Seq<Seq<char>>, rest: Seq<Seq<char>>, h: HarnessView)
    requires
        forall|i: int| 0 <= i < xs.len() ==> is_line_text(#[trigger] xs[i]),
    ensures
        harness_fold(list_items(xs) + rest, h, Section::Spec) == harness_fold(
            rest,
            (HarnessView { spec: h.spec + xs, ..h }),
            Section::Spec,
        ),
    decreases xs.len(),
{
    let ls = list_items(xs) + rest;
    if xs.len() == 0 {
        assert(ls =~= rest);
        assert(h.spec + xs =~= h.spec);
    } else {
        lemma_item_line(xs[0]);
        assert(ls[0] == "- "@ + xs[0]);
        assert(ls.drop_first() =~= list_items(xs.drop_first()) + rest);
        let h2 = HarnessView { spec: h.spec.push(xs[0]), ..h };
        lemma_fold_spec_items(xs.drop_first(), rest, h2);
        assert(h.spec.push(xs[0]) + xs.drop_first() =~= h.spec + xs);
    }
}

/// Reading items in the `Agentic Contracts` section adds their texts to the contracts.
proof fn lemma_fold_contract_items(xs: Seq<Seq<char>>, rest: Seq<Seq<char>>, h: HarnessView)
    requires
        forall|i: int| 0 <= i < xs.len() ==> is_line_text(#[trigger] xs[i]),
    ensures
        harness_fold(list_items(xs) + rest, h, Section::Contracts) == harness_fold(
            rest,
            (HarnessView { contracts: h.contracts + xs, ..h }),
            Section::Contracts,
        ),
    decreases xs.len(),
{
    let ls = list_items(xs) + rest;
    if xs.len() == 0 {
        assert(ls =~= rest);
        assert(h.contracts + xs =~= h.contracts);
    } else {
        lemma_item_line(xs[0]);
        assert(ls[0] == "- "@ + xs[0]);
        assert(ls.drop_first() =~= list_items(xs.drop_first()) + rest);
        let h2 = HarnessView { contracts: h.contracts.push(xs[0]), ..h };
        lemma_fold_contract_items(xs.drop_first(), rest, h2);
        assert(h.contracts.push(xs[0]) + xs.drop_first() =~= h.contracts + xs);
    }
}

/// Reading items in the `Evals` section adds the evals they describe.
proof fn lemma_fold_eval_items(xs: Seq<Seq<char>>, h: HarnessView)
    requires
        forall|i: int| 0 <= i < xs.len() ==> is_line_text(#[trigger] xs[i]),
    ensures
        harness_fold(list_items(xs), h, Section::Evals) == (HarnessView {
            evals: h.evals + read_entries(xs),
            ..h
        }),
    decreases xs.len(),
{
    let ls = list_items(xs);
    if xs.len() == 0 {
        assert(h.evals + read_entries(xs) =~= h.evals);
    } else {
        lemma_item_line(xs[0]);
        assert(ls[0] == "- "@ + xs[0]);
        assert(ls.drop_first() =~= list_items(xs.drop_first()));
        let first = match spec_parse_eval_entry(xs[0]) {
            Some(e) => seq![e],
            None => Seq::<EvalView>::empty(),
        };
        let h2 = HarnessView { evals: h.evals + first, ..h };
        assert(harness_step(h, Section::Evals, ls[0]) == (h2, Section::Evals)) by {
            match spec_parse_eval_entry(xs[0]) {
                Some(e) => {
                    assert(h.evals.push(e) =~= h.evals + first);
                },
                None => {
                    assert(h.evals + first =~= h.evals);
                },
            }
        }
        lemma_fold_eval_items(xs.drop_first(), h2);
        assert(h.evals + first + read_entries(xs.drop_first()) =~= h.evals + read_entries(xs));
    }
}

/// The module line names the module.
proof fn lemma_module_line(module: Seq<char>)
    requires
        !module.contains('\n'),
        module.len() == 0 || (!is_ws(module[0]) && !is_ws(module.last())),
    ensures
        ({
            let l = "# Module: "@ + module;
            &&& !l.contains('\n')
            &&& trim(l).len() > 0
            &&& forall|h: HarnessView, sec: Section|
                #[trigger] harness_step(h, sec, trim(l)) == (HarnessView { module, ..h }, sec)
        }),
{
    reveal_strlit("# Module: ");
    reveal_strlit("# Module:");
    reveal_strlit("# Module ");
    let l = "# Module: "@ + module;
    let pre = "# Module:"@;
    assert(!l.contains('\n')) by {
        if l.contains('\n') {
            let j = choose|j: int| 0 <= j < l.len() && l[j] == '\n';
            assert(j >= 10);
            assert(module[j - 10] == '\n');
            assert(module.contains('\n'));
        }
    }
    let t = if module.len() == 0 {
        pre
    } else {
        l
    };
    if module.len() == 0 {
        assert(l =~= pre + seq![' ']);
        lemma_trim_append_ws(pre, seq![' ']);
        lemma_trim_line_text(pre);
    } else {
        assert(l[0] == '#');
        assert(l.last() == module.last());
        lemma_trim_line_text(l);
    }
    assert(trim(l) == t);
    assert(t.take(9) =~= pre);
    let after = t.skip(9);
    assert(after =~= if module.len() == 0 {
        Seq::<char>::empty()
    } else {
        seq![' '] + module
    });
    if after.len() > 0 {
        assert(after[0] == ' ');
        if starts_with(after, pre) {
            assert(after.take(9)[0] == after[0]);
        }
        if starts_with(after, "# Module "@) {
            assert(after.take(9)[0] == after[0]);
        }
    }
    assert(!starts_with(after, pre));
    assert(!starts_with(after, "# Module "@));
    assert(starts_with(t, pre));
    assert(trim_start_matches(after, pre) == after);
    assert(trim_start_matches(t, pre) == after);
    assert(trim_start_matches(after, "# Module "@) == after);
    if module.len() > 0 {
        assert(after.drop_first() =~= module);
        lemma_trim_line_text(module);
        assert(trim_start(after) == trim_start(module));
    }
    assert(crate::parse::module_name(t) == module);
    assert(crate::parse::is_module_line(t));
    assert forall|h: HarnessView, sec: Section|
        #[trigger] harness_step(h, sec, trim(l)) == (HarnessView { module, ..h }, sec) by {
        lemma_trim_idempotent(l);
    }
}

/// A section heading selects its section and changes nothing else.
proof fn lemma_heading_steps(h: HarnessView, sec: Section)
    ensures
        harness_step(h, sec, "## Spec"@) == (h, Section::Spec),
        harness_step(h, sec, "## Agentic Contracts"@) == (h, Section::Contracts),
        harness_step(h, sec, "## Evals"@) == (h, Section::Evals),
{
    reveal_strlit("## Spec");
    reveal_strlit("## Agentic Contracts");
    reveal_strlit("## Evals");
    reveal_strlit("# Module:");
    reveal_strlit("# Module ");
    let hs = "## Spec"@;
    let hc = "## Agentic Contracts"@;
    let he = "## Evals"@;
    lemma_trim_line_text(hs);
    lemma_trim_line_text(hc);
    lemma_trim_line_text(he);
    assert(hc.take(9)[1] == '#');
    assert("# Module:"@[1] == ' ');
    assert("# Module "@[1] == ' ');
    assert(!starts_with(hc, "# Module:"@));
    assert(!starts_with(hc, "# Module "@));
}

/// The significant lines of a harness document: its module line, the
/// headings and the items, without the blank lines.
proof fn lemma_document_significant(
    module: Seq<char>,
    spec: Seq<Seq<char>>,
    contracts: Seq<Seq<char>>,
    entries: Seq<Seq<char>>,
)
    requires
        !module.contains('\n'),
        module.len() == 0 || (!is_ws(module[0]) && !is_ws(module.last())),
        forall|i: int| 0 <= i < spec.len() ==> is_line_text(#[trigger] spec[i]),
        forall|i: int| 0 <= i < contracts.len() ==> is_line_text(#[trigger] contracts[i]),
        forall|i: int| 0 <= i < entries.len() ==> is_line_text(#[trigger] entries[i]),
    ensures
        significant(harness_document(module, spec, contracts, entries)) == seq![
            trim("# Module: "@ + module),
            "## Spec"@,
        ] + list_items(spec) + seq!["## Agentic Contracts"@] + list_items(contracts) + seq![
            "## Evals"@,
        ] + list_items(entries),
{
    let m = "# Module: "@ + module;
    let hs = "## Spec"@;
    let hc = "## Agentic Contracts"@;
    let he = "## Evals"@;
    reveal_strlit("## Spec");
    reveal_strlit("## Agentic Contracts");
    reveal_strlit("## Evals");
    let blank = Seq::<char>::empty();
    lemma_module_line(module);
    lemma_significant_items(spec);
    lemma_significant_items(contracts);
    lemma_significant_items(entries);
    lemma_trim_line_text(hs);
    lemma_trim_line_text(hc);
    lemma_trim_line_text(he);
    assert(trim(blank) =~= blank);
    let is = list_items(spec);
    let ic = list_items(contracts);
    let ie = list_items(entries);
    let doc = harness_document(module, spec, contracts, entries);
    let head = seq![m, blank, hs];
    let mid = seq![blank, hc];
    let tail = seq![blank, he];
    assert(doc =~= head + is + mid + ic + tail + ie);
    lemma_significant_append(head + is + mid + ic + tail, ie);
    lemma_significant_append(head + is + mid + ic, tail);
    lemma_significant_append(head + is + mid, ic);
    lemma_significant_append(head + is, mid);
    lemma_significant_append(head, is);
    let none = Seq::<Seq<char>>::empty();
    assert(significant(none) == none);
    assert(significant(seq![hs]) =~= seq![hs]) by {
        assert(seq![hs].drop_first() =~= none);
    }
    assert(significant(seq![hc]) =~= seq![hc]) by {
        assert(seq![hc].drop_first() =~= none);
    }
    assert(significant(seq![he]) =~= seq![he]) by {
        assert(seq![he].drop_first() =~= none);
    }
    assert(significant(seq![blank, hs]) == seq![hs]) by {
        assert(seq![blank, hs].drop_first() =~= seq![hs]);
    }
    assert(significant(head) =~= seq![trim(m), hs]) by {
        assert(head.drop_first() =~= seq![blank, hs]);
        assert(trim(head[0]).len() > 0);
    }
    assert(significant(mid) =~= seq![hc]) by {
        assert(mid.drop_first() =~= seq![hc]);
    }
    assert(significant(tail) =~= seq![he]) by {
        assert(tail.drop_first() =~= seq![he]);
    }
}

/// Reading the significant lines of a harness document section by section.
proof fn lemma_fold_sections(
    module: Seq<char>,
    spec: Seq<Seq<char>>,
    contracts: Seq<Seq<char>>,
    entries: Seq<Seq<char>>,
)
    requires
        !module.contains('\n'),
        module.len() == 0 || (!is_ws(module[0]) && !is_ws(module.last())),
        forall|i: int| 0 <= i < spec.len() ==> is_line_text(#[trigger] spec[i]),
        forall|i: int| 0 <= i < contracts.len() ==> is_line_text(#[trigger] contracts[i]),
        forall|i: int| 0 <= i < entries.len() ==> is_line_text(#[trigger] entries[i]),
    ensures
        harness_fold(
            seq![trim("# Module: "@ + module), "## Spec"@] + list_items(spec) + seq![
                "## Agentic Contracts"@,
            ] + list_items(contracts) + seq!["## Evals"@] + list_items(entries),
            empty_harness(),
            Section::Other,
        ) == (HarnessView { module, spec, contracts, evals: read_entries(entries) }),
{
    let m = "# Module: "@ + module;
    let hs = "## Spec"@;
    let hc = "## Agentic Contracts"@;
    let he = "## Evals"@;
    lemma_module_line(module);
    let is = list_items(spec);
    let ic = list_items(contracts);
    let ie = list_items(entries);
    let sig = seq![trim(m), hs] + is + seq![hc] + ic + seq![he] + ie;
    let e = empty_harness();
    let h1 = HarnessView { module, ..e };
    let r1 = seq![hs] + is + seq![hc] + ic + seq![he] + ie;
    assert(sig[0] == trim(m));
    assert(sig.drop_first() =~= r1);
    assert(harness_step(e, Section::Other, trim(m)) == (h1, Section::Other));
    assert(harness_fold(sig, e, Section::Other) == harness_fold(r1, h1, Section::Other));
    lemma_heading_steps(h1, Section::Other);
    let r2 = is + (seq![hc] + ic + seq![he] + ie);
    assert(r1[0] == hs);
    assert(r1.drop_first() =~= r2);
    assert(harness_fold(r1, h1, Section::Other) == harness_fold(r2, h1, Section::Spec));
    lemma_fold_spec_items(spec, seq![hc] + ic + seq![he] + ie, h1);
    let h2 = HarnessView { spec: h1.spec + spec, ..h1 };
    lemma_heading_steps(h2, Section::Spec);
    let r3 = seq![hc] + ic + seq![he] + ie;
    let r4 = ic + (seq![he] + ie);
    assert(r3[0] == hc);
    assert(r3.drop_first() =~= r4);
    assert(harness_fold(r3, h2, Section::Spec) == harness_fold(r4, h2, Section::Contracts));
    lemma_fold_contract_items(contracts, seq![he] + ie, h2);
    let h3 = HarnessView { contracts: h2.contracts + contracts, ..h2 };
    lemma_heading_steps(h3, Section::Contracts);
    let r5 = seq![he] + ie;
    assert(r5[0] == he);
    assert(r5.drop_first() =~= ie);
    assert(harness_fold(r5, h3, Section::Contracts) == harness_fold(ie, h3, Section::Evals));
    lemma_fold_eval_items(entries, h3);
    assert(r2 =~= is + r3);
    assert(r4 =~= ic + r5);
    assert(h1.spec + spec =~= spec);
    assert(h2.contracts + contracts =~= contracts);
    assert(h3.evals + read_entries(entries) =~= read_entries(entries));
}

/// What the harness format writes reads back: a module line, then the
/// `Spec`, `Agentic Contracts` and `Evals` sections with one item per
/// line, give the module name, the spec and contract items in order, and
/// the evals that the entries describe (the entries that do not parse are
/// left out). Each item is one line that neither starts nor ends with
/// whitespace, and so is the module name, which may also be empty.
#[verifier::spinoff_prover]
pub proof fn law_harness_format_reads_back(
    module: Seq<char>,
    spec: Seq<Seq<char>>,
    contracts: Seq<Seq<char>>,
    entries: Seq<Seq<char>>,
)
    requires
        !module.contains('\n'),
        module.len() == 0 || (!is_ws(module[0]) && !is_ws(module.last())),
        forall|i: int| 0 <= i < spec.len() ==> is_line_text(#[trigger] spec[i]),
        forall|i: int| 0 <= i < contracts.len() ==> is_line_text(#[trigger] contracts[i]),
        forall|i: int| 0 <= i < entries.len() ==> is_line_text(#[trigger] entries[i]),
    ensures
        spec_parse_harness_sections(join(harness_document(module, spec, contracts, entries), "\n"@))
            == (HarnessView { module, spec, contracts, evals: read_entries(entries) }),
{
    reveal_strlit("\n");
    reveal_strlit("## Spec");
    reveal_strlit("## Agentic Contracts");
    reveal_strlit("## Evals");
    assert("\n"@ =~= seq!['\n']);
    let m = "# Module: "@ + module;
    let hs = "## Spec"@;
    let hc = "## Agentic Contracts"@;
    let he = "## Evals"@;
    lemma_module_line(module);
    lemma_significant_items(spec);
    lemma_significant_items(contracts);
    lemma_significant_items(entries);
    let is = list_items(spec);
    let ic = list_items(contracts);
    let ie = list_items(entries);
    let doc = harness_document(module, spec, contracts, entries);
    assert(no_newlines(doc)) by {
        assert(!hs.contains('\n')) by {
            assert(forall|j: int| 0 <= j < hs.len() ==> hs[j] != '\n');
        }
        assert(!hc.contains('\n')) by {
            assert(forall|j: int| 0 <= j < hc.len() ==> hc[j] != '\n');
        }
        assert(!he.contains('\n')) by {
            assert(forall|j: int| 0 <= j < he.len() ==> he[j] != '\n');
        }
        assert forall|i: int| 0 <= i < doc.len() implies !(#[trigger] doc[i]).contains('\n') by {
            let a = 3 + is.len();
            let b = a + 2 + ic.len();
            if i < 3 {
            } else if i < a {
                assert(doc[i] == is[i - 3]);
            } else if i < a + 2 {
            } else if i < b {
                assert(doc[i] == ic[i - a - 2]);
            } else if i < b + 2 {
            } else {
                assert(doc[i] == ie[i - b - 2]);
            }
        }
    }
    lemma_harness_of_join(doc);
    lemma_document_significant(module, spec, contracts, entries);
    lemma_fold_sections(module, spec, contracts, entries);
}

} // verus!
