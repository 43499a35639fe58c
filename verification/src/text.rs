//! Character-level text operations used by the harness parser.
//!
//! Every operation works on sequences of `char` and is specified by a spec
//! function over `Seq<char>`; the executable versions work on `&[char]`.
use vstd::prelude::*;

verus! {

broadcast use vstd::seq_lib::group_seq_properties;

// ---------------------------------------------------------------------------
// Specifications
// ---------------------------------------------------------------------------

/// Unicode `White_Space`, the set of characters `char::is_whitespace` accepts.
pub open spec fn is_ws(c: char) -> bool {
    ||| ('\u{9}' <= c && c <= '\u{d}')
    ||| c == ' '
    ||| c == '\u{85}'
    ||| c == '\u{a0}'
    ||| c == '\u{1680}'
    ||| ('\u{2000}' <= c && c <= '\u{200a}')
    ||| c == '\u{2028}'
    ||| c == '\u{2029}'
    ||| c == '\u{202f}'
    ||| c == '\u{205f}'
    ||| c == '\u{3000}'
}

/// `s` without its leading whitespace.
pub open spec fn trim_start(s: Seq<char>) -> Seq<char>
    decreases s.len(),
{
    if s.len() > 0 && is_ws(s[0]) {
        trim_start(s.drop_first())
    } else {
        s
    }
}

/// `s` without its trailing whitespace.
pub open spec fn trim_end(s: Seq<char>) -> Seq<char>
    decreases s.len(),
{
    if s.len() > 0 && is_ws(s.last()) {
        trim_end(s.drop_last())
    } else {
        s
    }
}

/// `s` without leading and trailing whitespace.
pub open spec fn trim(s: Seq<char>) -> Seq<char> {
    trim_end(trim_start(s))
}

/// `p` is a prefix of `s`.
pub open spec fn starts_with(s: Seq<char>, p: Seq<char>) -> bool {
    p.len() <= s.len() && s.take(p.len() as int) == p
}

/// `p` occurs in `s` at index `i`.
pub open spec fn occurs_at(s: Seq<char>, p: Seq<char>, i: int) -> bool {
    0 <= i && i + p.len() <= s.len() && s.subrange(i, i + p.len()) == p
}

/// The first index at or after `i` at which `p` occurs in `s`.
pub open spec fn find_from(s: Seq<char>, p: Seq<char>, i: int) -> Option<int>
    decreases s.len() + 1 - i,
{
    if i < 0 || i + p.len() > s.len() {
        None
    } else if occurs_at(s, p, i) {
        Some(i)
    } else {
        find_from(s, p, i + 1)
    }
}

/// The first index at which `p` occurs in `s` (`str::find`).
pub open spec fn find(s: Seq<char>, p: Seq<char>) -> Option<int> {
    find_from(s, p, 0)
}

/// `s` with every leading copy of a non-empty `p` removed (`str::trim_start_matches`).
pub open spec fn trim_start_matches(s: Seq<char>, p: Seq<char>) -> Seq<char>
    decreases s.len(),
{
    if p.len() > 0 && starts_with(s, p) {
        trim_start_matches(s.skip(p.len() as int), p)
    } else {
        s
    }
}

/// `s` with every trailing `c` removed (`str::trim_end_matches` with a char).
pub open spec fn trim_end_char(s: Seq<char>, c: char) -> Seq<char>
    decreases s.len(),
{
    if s.len() > 0 && s.last() == c {
        trim_end_char(s.drop_last(), c)
    } else {
        s
    }
}

/// A line without the `'\r'` that ends it, if any.
pub open spec fn strip_cr(line: Seq<char>) -> Seq<char> {
    if line.len() > 0 && line.last() == '\r' {
        line.drop_last()
    } else {
        line
    }
}

/// The lines of `s` that follow the partial line `cur`: lines end at `'\n'`,
/// a `'\r'` just before that `'\n'` is dropped, and a last line is kept only
/// if it is not empty.
pub open spec fn lines_after(s: Seq<char>, cur: Seq<char>) -> Seq<Seq<char>>
    decreases s.len(),
{
    if s.len() == 0 {
        if cur.len() == 0 {
            Seq::empty()
        } else {
            seq![cur]
        }
    } else if s[0] == '\n' {
        seq![strip_cr(cur)] + lines_after(s.drop_first(), Seq::empty())
    } else {
        lines_after(s.drop_first(), cur.push(s[0]))
    }
}

/// The lines of `s`, as `str::lines` splits them.
pub open spec fn lines(s: Seq<char>) -> Seq<Seq<char>> {
    lines_after(s, Seq::empty())
}

/// The items of `xs` joined with `sep` between each two of them.
pub open spec fn join(xs: Seq<Seq<char>>, sep: Seq<char>) -> Seq<char>
    decreases xs.len(),
{
    if xs.len() == 0 {
        Seq::empty()
    } else if xs.len() == 1 {
        xs[0]
    } else {
        join(xs.drop_last(), sep) + sep + xs.last()
    }
}

/// The code of a char with ASCII letters folded to lowercase.
pub open spec fn ascii_lower_code(c: char) -> u32 {
    if 'A' <= c && c <= 'Z' {
        (c as u32 + 32) as u32
    } else {
        c as u32
    }
}

/// `a` and `b` are equal when ASCII letters are compared without case.
pub open spec fn eq_ignore_ascii_case(a: Seq<char>, b: Seq<char>) -> bool {
    a.len() == b.len() && forall|i: int|
        0 <= i < a.len() ==> ascii_lower_code(a[i]) == ascii_lower_code(b[i])
}

/// The views of a sequence of strings.
pub open spec fn views(v: Seq<String>) -> Seq<Seq<char>> {
    v.map_values(|s: String| s@)
}

/// The pieces of `s` between the `sep`s (`str::split` with a char): there is
/// always one more piece than there are separators.
pub open spec fn split_char(s: Seq<char>, sep: char) -> Seq<Seq<char>>
    decreases s.len(),
{
    if s.len() == 0 {
        seq![Seq::empty()]
    } else {
        let rest = split_char(s.drop_first(), sep);
        if s[0] == sep {
            seq![Seq::empty()] + rest
        } else {
            rest.update(0, seq![s[0]] + rest[0])
        }
    }
}

/// There is always at least one piece.
pub proof fn lemma_split_char_len(s: Seq<char>, sep: char)
    ensures
        split_char(s, sep).len() >= 1,
    decreases s.len(),
{
    if s.len() > 0 {
        lemma_split_char_len(s.drop_first(), sep);
    }
}

// ---------------------------------------------------------------------------
// Lemmas
// ---------------------------------------------------------------------------

proof fn lemma_skip_step<T>(s: Seq<T>, i: int)
    requires
        0 <= i < s.len(),
    ensures
        s.skip(i).drop_first() == s.skip(i + 1),
        s.skip(i)[0] == s[i],
        s.skip(i).len() > 0,
{
    assert(s.skip(i).drop_first() =~= s.skip(i + 1));
}

proof fn lemma_take_step<T>(s: Seq<T>, j: int)
    requires
        0 < j <= s.len(),
    ensures
        s.take(j).drop_last() == s.take(j - 1),
        s.take(j).last() == s[j - 1],
{
    assert(s.take(j).drop_last() =~= s.take(j - 1));
}

/// What `find_from` finds is an occurrence, the first at or after `i`.
pub proof fn lemma_find_occurs(s: Seq<char>, p: Seq<char>, i: int)
    requires
        0 <= i,
    ensures
        find_from(s, p, i) matches Some(j) ==> {
            &&& occurs_at(s, p, j)
            &&& i <= j
            &&& forall|k: int| i <= k < j ==> !occurs_at(s, p, k)
        },
        find_from(s, p, i) is None ==> forall|k: int| i <= k ==> !occurs_at(s, p, k),
    decreases s.len() + 1 - i,
{
    if i < 0 || i + p.len() > s.len() {
    } else if occurs_at(s, p, i) {
    } else {
        lemma_find_occurs(s, p, i + 1);
    }
}

// ---------------------------------------------------------------------------
// Executable operations
// ---------------------------------------------------------------------------

/// The characters of a string slice, in order.
pub fn chars_of(s: &str) -> (res: Vec<char>)
    ensures
        res@ == s@,
{
    let mut res: Vec<char> = Vec::new();
    for c in it: s.chars()
        invariant
            res@ == it.seq().take(it.index() as int),
    {
        res.push(c);
    }
    res
}

/// Appends a char to a `String` (`String::push`).
#[verifier::external_body]
fn push_char(s: &mut String, c: char)
    ensures
        final(s)@ == old(s)@.push(c),
{
    s.push(c);
}

/// The string made of the given characters.
pub fn string_of(cs: &[char]) -> (res: String)
    ensures
        res@ == cs@,
{
    let mut res = String::new();
    let mut i: usize = 0;
    while i < cs.len()
        invariant
            i <= cs@.len(),
            res@ == cs@.take(i as int),
        decreases cs@.len() - i,
    {
        push_char(&mut res, cs[i]);
        assert(cs@.take(i as int).push(cs@[i as int]) =~= cs@.take(i + 1));
        i += 1;
    }
    assert(cs@.take(cs@.len() as int) =~= cs@);
    res
}

/// Whether `c` is Unicode whitespace.
pub fn is_ws_char(c: char) -> (res: bool)
    ensures
        res == is_ws(c),
{
    ('\u{9}' <= c && c <= '\u{d}') || c == ' ' || c == '\u{85}' || c == '\u{a0}' || c
        == '\u{1680}' || ('\u{2000}' <= c && c <= '\u{200a}') || c == '\u{2028}' || c
        == '\u{2029}' || c == '\u{202f}' || c == '\u{205f}' || c == '\u{3000}'
}

/// `s` without its leading whitespace.
pub fn trim_start_slice(s: &[char]) -> (res: &[char])
    ensures
        res@ == trim_start(s@),
{
    let mut i: usize = 0;
    assert(s@.skip(0) =~= s@);
    while i < s.len() && is_ws_char(s[i])
        invariant
            i <= s@.len(),
            trim_start(s@) == trim_start(s@.skip(i as int)),
        decreases s@.len() - i,
    {
        proof {
            lemma_skip_step(s@, i as int);
        }
        i += 1;
    }
    &s[i..s.len()]
}

/// `s` without its trailing whitespace.
pub fn trim_end_slice(s: &[char]) -> (res: &[char])
    ensures
        res@ == trim_end(s@),
{
    let mut j: usize = s.len();
    assert(s@.take(s@.len() as int) =~= s@);
    while j > 0 && is_ws_char(s[j - 1])
        invariant
            j <= s@.len(),
            trim_end(s@) == trim_end(s@.take(j as int)),
        decreases j,
    {
        proof {
            lemma_take_step(s@, j as int);
        }
        j -= 1;
    }
    &s[0..j]
}

/// `s` without leading and trailing whitespace.
pub fn trim_slice(s: &[char]) -> (res: &[char])
    ensures
        res@ == trim(s@),
{
    trim_end_slice(trim_start_slice(s))
}

/// Whether `p` occurs in `s` at index `i`.
pub fn occurs_at_exec(s: &[char], p: &[char], i: usize) -> (res: bool)
    ensures
        res == occurs_at(s@, p@, i as int),
{
    if i > s.len() || p.len() > s.len() - i {
        return false;
    }
    let mut k: usize = 0;
    while k < p.len()
        invariant
            i + p@.len() <= s@.len(),
            k <= p@.len(),
            forall|m: int| 0 <= m < k ==> s@[i + m] == p@[m],
        decreases p@.len() - k,
    {
        assert(i + k < s.len());
        if s[i + k] != p[k] {
            assert(s@.subrange(i as int, i + p@.len())[k as int] != p@[k as int]);
            return false;
        }
        k += 1;
    }
    assert(s@.subrange(i as int, i + p@.len()) =~= p@);
    true
}

/// Whether `p` is a prefix of `s`.
pub fn starts_with_slice(s: &[char], p: &[char]) -> (res: bool)
    ensures
        res == starts_with(s@, p@),
{
    let r = occurs_at_exec(s, p, 0);
    proof {
        if p@.len() <= s@.len() {
            assert(s@.subrange(0, p@.len() as int) =~= s@.take(p@.len() as int));
        }
    }
    r
}

/// Whether the literal `p` is a prefix of `s`.
pub fn starts_with_str(s: &[char], p: &str) -> (res: bool)
    ensures
        res == starts_with(s@, p@),
{
    let pc = chars_of(p);
    starts_with_slice(s, pc.as_slice())
}

/// Whether `s` equals the literal `p`.
pub fn eq_str(s: &[char], p: &str) -> (res: bool)
    ensures
        res == (s@ == p@),
{
    let pc = chars_of(p);
    if s.len() != pc.len() {
        return false;
    }
    let r = starts_with_slice(s, pc.as_slice());
    proof {
        if r {
            assert(s@ =~= s@.take(pc@.len() as int));
        }
    }
    r
}

/// `s` without the prefix `p`, if `p` is a prefix of `s`.
pub fn strip_prefix_str<'a>(s: &'a [char], p: &str) -> (res: Option<&'a [char]>)
    ensures
        res is Some <==> starts_with(s@, p@),
        res matches Some(r) ==> r@ == s@.skip(p@.len() as int),
{
    let pc = chars_of(p);
    if starts_with_slice(s, pc.as_slice()) {
        Some(&s[pc.len()..s.len()])
    } else {
        None
    }
}

/// The first index at which `p` occurs in `s`.
pub fn find_slice(s: &[char], p: &[char]) -> (res: Option<usize>)
    ensures
        match res {
            Some(i) => find(s@, p@) == Some(i as int),
            None => find(s@, p@) is None,
        },
{
    if p.len() > s.len() {
        return None;
    }
    let last = s.len() - p.len();
    let mut i: usize = 0;
    loop
        invariant
            last + p@.len() == s@.len(),
            i <= last,
            find(s@, p@) == find_from(s@, p@, i as int),
        decreases last - i,
    {
        if occurs_at_exec(s, p, i) {
            return Some(i);
        }
        if i == last {
            assert(find_from(s@, p@, i + 1) is None);
            return None;
        }
        i += 1;
    }
}

/// The first index at which the literal `p` occurs in `s`.
pub fn find_str(s: &[char], p: &str) -> (res: Option<usize>)
    ensures
        match res {
            Some(i) => find(s@, p@) == Some(i as int),
            None => find(s@, p@) is None,
        },
{
    let pc = chars_of(p);
    find_slice(s, pc.as_slice())
}

/// The first index at which `c` occurs in `s`.
pub fn find_char(s: &[char], c: char) -> (res: Option<usize>)
    ensures
        match res {
            Some(i) => find(s@, seq![c]) == Some(i as int),
            None => find(s@, seq![c]) is None,
        },
{
    let pc = vec![c];
    assert(pc@ =~= seq![c]);
    find_slice(s, pc.as_slice())
}

/// `s` with every leading copy of the literal `p` removed.
pub fn trim_start_matches_str<'a>(s: &'a [char], p: &str) -> (res: &'a [char])
    ensures
        res@ == trim_start_matches(s@, p@),
{
    let pc = chars_of(p);
    if pc.len() == 0 {
        return s;
    }
    let mut i: usize = 0;
    assert(s@.skip(0) =~= s@);
    while starts_with_slice(&s[i..s.len()], pc.as_slice())
        invariant
            i <= s@.len(),
            pc@.len() > 0,
            pc@ == p@,
            trim_start_matches(s@, p@) == trim_start_matches(s@.skip(i as int), p@),
        decreases s@.len() - i,
    {
        proof {
            assert(s@.skip(i as int).skip(pc@.len() as int) =~= s@.skip(i + pc@.len()));
        }
        i += pc.len();
    }
    &s[i..s.len()]
}

/// `s` with every trailing `c` removed.
pub fn trim_end_char_slice(s: &[char], c: char) -> (res: &[char])
    ensures
        res@ == trim_end_char(s@, c),
{
    let mut j: usize = s.len();
    assert(s@.take(s@.len() as int) =~= s@);
    while j > 0 && s[j - 1] == c
        invariant
            j <= s@.len(),
            trim_end_char(s@, c) == trim_end_char(s@.take(j as int), c),
        decreases j,
    {
        proof {
            lemma_take_step(s@, j as int);
        }
        j -= 1;
    }
    &s[0..j]
}

/// The lines of `s`.
pub fn split_lines(s: &[char]) -> (res: Vec<Vec<char>>)
    ensures
        res@.map_values(|l: Vec<char>| l@) == lines(s@),
{
    let mut out: Vec<Vec<char>> = Vec::new();
    let mut cur: Vec<char> = Vec::new();
    let mut i: usize = 0;
    assert(s@.skip(0) =~= s@);
    while i < s.len()
        invariant
            i <= s@.len(),
            lines(s@) == out@.map_values(|l: Vec<char>| l@) + lines_after(s@.skip(i as int), cur@),
        decreases s@.len() - i,
    {
        proof {
            lemma_skip_step(s@, i as int);
        }
        let c = s[i];
        if c == '\n' {
            let n = cur.len();
            let line: Vec<char> = if n > 0 && cur[n - 1] == '\r' {
                let mut t = cur;
                t.pop();
                t
            } else {
                cur
            };
            let ghost old_out = out@.map_values(|l: Vec<char>| l@);
            out.push(line);
            assert(out@.map_values(|l: Vec<char>| l@) =~= old_out.push(line@));
            cur = Vec::new();
        } else {
            cur.push(c);
        }
        i += 1;
    }
    if cur.len() > 0 {
        let ghost old_out = out@.map_values(|l: Vec<char>| l@);
        out.push(cur);
        assert(out@.map_values(|l: Vec<char>| l@) =~= old_out.push(cur@));
    } else {
        assert(out@.map_values(|l: Vec<char>| l@) + Seq::<Seq<char>>::empty() =~= out@.map_values(|l: Vec<char>| l@));
    }
    out
}

/// The given lines joined with `'\n'` between each two of them.
pub fn join_lines(xs: &Vec<Vec<char>>) -> (res: Vec<char>)
    ensures
        res@ == join(xs@.map_values(|l: Vec<char>| l@), seq!['\n']),
{
    let ghost vs = xs@.map_values(|l: Vec<char>| l@);
    let mut res: Vec<char> = Vec::new();
    let mut i: usize = 0;
    while i < xs.len()
        invariant
            i <= xs@.len(),
            vs == xs@.map_values(|l: Vec<char>| l@),
            res@ == join(vs.take(i as int), seq!['\n']),
        decreases xs@.len() - i,
    {
        if i > 0 {
            res.push('\n');
        }
        let line = &xs[i];
        let mut k: usize = 0;
        let ghost before = res@;
        while k < line.len()
            invariant
                k <= line@.len(),
                res@ == before + line@.take(k as int),
            decreases line@.len() - k,
        {
            res.push(line[k]);
            assert(before + line@.take(k + 1) =~= (before + line@.take(k as int)).push(line@[k as int]));
            k += 1;
        }
        proof {
            assert(line@.take(line@.len() as int) =~= line@);
            assert(vs.take(i + 1).drop_last() =~= vs.take(i as int));
            if i == 0 {
                assert(before =~= Seq::<char>::empty());
            }
        }
        i += 1;
    }
    assert(vs.take(xs@.len() as int) =~= vs);
    res
}

/// The code of a char with ASCII letters folded to lowercase.
pub fn ascii_lower_code_exec(c: char) -> (res: u32)
    ensures
        res == ascii_lower_code(c),
{
    if 'A' <= c && c <= 'Z' {
        (c as u32) + 32
    } else {
        c as u32
    }
}

/// Whether `s` equals the literal `p` when ASCII letters are compared without case.
pub fn eq_ignore_ascii_case_str(s: &[char], p: &str) -> (res: bool)
    ensures
        res == eq_ignore_ascii_case(s@, p@),
{
    let pc = chars_of(p);
    if s.len() != pc.len() {
        return false;
    }
    let mut i: usize = 0;
    while i < s.len()
        invariant
            s@.len() == pc@.len(),
            pc@ == p@,
            i <= s@.len(),
            forall|k: int| 0 <= k < i ==> ascii_lower_code(s@[k]) == ascii_lower_code(pc@[k]),
        decreases s@.len() - i,
    {
        if ascii_lower_code_exec(s[i]) != ascii_lower_code_exec(pc[i]) {
            return false;
        }
        i += 1;
    }
    true
}

} // verus!
