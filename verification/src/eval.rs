//! Eval types and their bracket annotations (`[boolean]`, `[range: 5..10]`, ...).
use vstd::prelude::*;
use crate::text::{
    chars_of, eq_ignore_ascii_case, eq_ignore_ascii_case_str, find, find_slice, lemma_find_occurs,
    occurs_at, starts_with, string_of, strip_prefix_str, trim, trim_slice,
};

verus! {

broadcast use vstd::seq_lib::group_seq_properties;

/// Direction of deviation from an optimal band.
#[derive(Debug, Clone, Copy, PartialEq, Eq, Structural)]
pub enum Direction {
    Under,
    Within,
    Over,
}

/// The type of an eval and its scoring parameters.
///
/// The bounds of a range are kept as the text they were written with; each
/// is a literal of `f64`'s grammar, so it always parses as an `f64`.
#[derive(Debug, Clone, PartialEq)]
pub enum EvalType {
    /// Pass/fail: true → 1.0, false → 0.0
    Boolean,
    /// Likert scale mapped to [0.0, 1.0]
    Ordinal { min: u32, max: u32 },
    /// Raw ratio in [0.0, 1.0]
    Continuous,
    /// Optimal band with directional deviation
    Range { low: String, high: String },
}

/// The mathematical value of an [`EvalType`].
pub enum EvalTypeView {
    Boolean,
    Ordinal { min: u32, max: u32 },
    Continuous,
    Range { low: Seq<char>, high: Seq<char> },
}

impl View for EvalType {
    type V = EvalTypeView;

    open spec fn view(&self) -> EvalTypeView {
        match self {
            EvalType::Boolean => EvalTypeView::Boolean,
            EvalType::Ordinal { min, max } => EvalTypeView::Ordinal { min: *min, max: *max },
            EvalType::Continuous => EvalTypeView::Continuous,
            EvalType::Range { low, high } => EvalTypeView::Range { low: low@, high: high@ },
        }
    }
}

/// The view of an optional eval type.
pub open spec fn opt_type_view(t: Option<EvalType>) -> Option<EvalTypeView> {
    match t {
        Some(e) => Some(e@),
        None => None,
    }
}

// ---------------------------------------------------------------------------
// Numbers
// ---------------------------------------------------------------------------

pub open spec fn is_digit(c: char) -> bool {
    '0' <= c && c <= '9'
}

pub open spec fn all_digits(s: Seq<char>) -> bool {
    forall|i: int| 0 <= i < s.len() ==> is_digit(#[trigger] s[i])
}

/// The value of a string of decimal digits.
pub open spec fn digits_value(s: Seq<char>) -> nat
    decreases s.len(),
{
    if s.len() == 0 {
        0
    } else {
        digits_value(s.drop_last()) * 10 + ((s.last() as u32 - '0' as u32) as nat)
    }
}

/// `s` without one leading `'+'` (for `u32`).
pub open spec fn unsigned_digits(s: Seq<char>) -> Seq<char> {
    if s.len() > 0 && s[0] == '+' {
        s.drop_first()
    } else {
        s
    }
}

/// What `str::parse::<u32>` gives: an optional `'+'`, then one or more ASCII
/// digits whose value fits in a `u32`.
pub open spec fn spec_parse_u32(s: Seq<char>) -> Option<u32> {
    let d = unsigned_digits(s);
    if d.len() > 0 && all_digits(d) && digits_value(d) <= u32::MAX {
        Some(digits_value(d) as u32)
    } else {
        None
    }
}

/// `s` without one leading sign.
pub open spec fn unsigned_part(s: Seq<char>) -> Seq<char> {
    if s.len() > 0 && (s[0] == '+' || s[0] == '-') {
        s.drop_first()
    } else {
        s
    }
}

/// The index of the first `'.'` in `s`, or `s.len()`.
pub open spec fn first_dot(s: Seq<char>) -> int
    decreases s.len(),
{
    if s.len() == 0 || s[0] == '.' {
        0
    } else {
        1 + first_dot(s.drop_first())
    }
}

/// The index of the first `'e'` or `'E'` in `s`, or `s.len()`.
pub open spec fn first_exp(s: Seq<char>) -> int
    decreases s.len(),
{
    if s.len() == 0 || s[0] == 'e' || s[0] == 'E' {
        0
    } else {
        1 + first_exp(s.drop_first())
    }
}

/// A mantissa: digits with at most one `'.'` among them, and at least one digit.
pub open spec fn is_mantissa(m: Seq<char>) -> bool {
    let d = first_dot(m);
    if d == m.len() {
        m.len() > 0 && all_digits(m)
    } else {
        all_digits(m.take(d)) && all_digits(m.skip(d + 1)) && m.len() > 1
    }
}

/// An exponent after the `'e'`: an optional sign and one or more digits.
pub open spec fn is_exponent(x: Seq<char>) -> bool {
    let y = unsigned_part(x);
    y.len() > 0 && all_digits(y)
}

/// A decimal number: a mantissa, then optionally `'e'` or `'E'` and an exponent.
pub open spec fn is_decimal(b: Seq<char>) -> bool {
    let e = first_exp(b);
    is_mantissa(b.take(e)) && (e == b.len() || is_exponent(b.skip(e + 1)))
}

/// The strings `str::parse::<f64>` accepts: an optional sign, then `inf`,
/// `infinity` or `nan` in any ASCII case, or a decimal number.
pub open spec fn is_float_literal(s: Seq<char>) -> bool {
    let b = unsigned_part(s);
    ||| eq_ignore_ascii_case(b, "inf"@)
    ||| eq_ignore_ascii_case(b, "infinity"@)
    ||| eq_ignore_ascii_case(b, "nan"@)
    ||| is_decimal(b)
}

// ---------------------------------------------------------------------------
// Annotations
// ---------------------------------------------------------------------------

/// The arguments after a keyword: trimmed, without one leading `':'`, trimmed again.
pub open spec fn annotation_args(rest: Seq<char>) -> Seq<char> {
    let t = trim(rest);
    if starts_with(t, ":"@) {
        trim(t.skip(":"@.len() as int))
    } else {
        t
    }
}

/// The two sides of the first `".."` in `s` (`str::split_once("..")`).
pub open spec fn split_bounds(s: Seq<char>) -> Option<(Seq<char>, Seq<char>)> {
    match find(s, ".."@) {
        Some(i) => Some((s.take(i), s.skip(i + ".."@.len()))),
        None => None,
    }
}

/// The eval type that an annotation (the text between `[` and `]`) names.
pub open spec fn spec_parse_eval_type(annotation: Seq<char>) -> Option<EvalTypeView> {
    let inner = trim(annotation);
    if eq_ignore_ascii_case(inner, "boolean"@) {
        Some(EvalTypeView::Boolean)
    } else if eq_ignore_ascii_case(inner, "continuous"@) {
        Some(EvalTypeView::Continuous)
    } else if starts_with(inner, "ordinal"@) {
        let args = annotation_args(inner.skip("ordinal"@.len() as int));
        match split_bounds(args) {
            Some((lo, hi)) => match (spec_parse_u32(trim(lo)), spec_parse_u32(trim(hi))) {
                (Some(min), Some(max)) => Some(EvalTypeView::Ordinal { min, max }),
                _ => Some(EvalTypeView::Ordinal { min: 1, max: 5 }),
            },
            None => Some(EvalTypeView::Ordinal { min: 1, max: 5 }),
        }
    } else if starts_with(inner, "range"@) {
        let args = annotation_args(inner.skip("range"@.len() as int));
        match split_bounds(args) {
            Some((lo, hi)) => if is_float_literal(trim(lo)) && is_float_literal(trim(hi)) {
                Some(EvalTypeView::Range { low: trim(lo), high: trim(hi) })
            } else {
                None
            },
            None => None,
        }
    } else {
        None
    }
}

// ---------------------------------------------------------------------------
// Executable
// ---------------------------------------------------------------------------

proof fn lemma_digits_value_push(s: Seq<char>, c: char)
    ensures
        digits_value(s.push(c)) == digits_value(s) * 10 + ((c as u32 - '0' as u32) as nat),
{
    assert(s.push(c).drop_last() =~= s);
}

/// What `str::parse::<u32>` gives for `s`.
pub fn parse_u32(s: &[char]) -> (res: Option<u32>)
    ensures
        res == spec_parse_u32(s@),
{
    let d: &[char] = if s.len() > 0 && s[0] == '+' {
        &s[1..s.len()]
    } else {
        s
    };
    assert(d@ == unsigned_digits(s@));
    if d.len() == 0 {
        return None;
    }
    let mut v: u64 = 0;
    let mut over = false;
    let mut i: usize = 0;
    while i < d.len()
        invariant
            i <= d@.len(),
            d@ == unsigned_digits(s@),
            all_digits(d@.take(i as int)),
            !over ==> v == digits_value(d@.take(i as int)) && v <= u32::MAX,
            over ==> digits_value(d@.take(i as int)) > u32::MAX,
        decreases d@.len() - i,
    {
        let c = d[i];
        if !('0' <= c && c <= '9') {
            assert(!all_digits(d@)) by {
                assert(!is_digit(d@[i as int]));
            }
            return None;
        }
        proof {
            assert(d@.take(i + 1) =~= d@.take(i as int).push(c));
            lemma_digits_value_push(d@.take(i as int), c);
        }
        if !over {
            let nv = v * 10 + ((c as u32 - '0' as u32) as u64);
            if nv > 4294967295 {
                over = true;
            } else {
                v = nv;
            }
        }
        i += 1;
    }
    assert(d@.take(d@.len() as int) =~= d@);
    if over {
        None
    } else {
        Some(v as u32)
    }
}

/// Whether `s` is all ASCII digits.
fn all_digits_exec(s: &[char]) -> (res: bool)
    ensures
        res == all_digits(s@),
{
    let mut i: usize = 0;
    while i < s.len()
        invariant
            i <= s@.len(),
            forall|k: int| 0 <= k < i ==> is_digit(s@[k]),
        decreases s@.len() - i,
    {
        if !('0' <= s[i] && s[i] <= '9') {
            return false;
        }
        i += 1;
    }
    true
}

proof fn lemma_first_dot_unique(s: Seq<char>, d: int)
    requires
        0 <= d <= s.len(),
        d < s.len() ==> s[d] == '.',
        forall|k: int| 0 <= k < d ==> s[k] != '.',
    ensures
        first_dot(s) == d,
    decreases s.len(),
{
    if s.len() > 0 && s[0] != '.' {
        assert(s[0] != '.');
        lemma_first_dot_unique(s.drop_first(), d - 1);
    }
}

proof fn lemma_first_exp_unique(s: Seq<char>, d: int)
    requires
        0 <= d <= s.len(),
        d < s.len() ==> (s[d] == 'e' || s[d] == 'E'),
        forall|k: int| 0 <= k < d ==> s[k] != 'e' && s[k] != 'E',
    ensures
        first_exp(s) == d,
    decreases s.len(),
{
    if s.len() > 0 && s[0] != 'e' && s[0] != 'E' {
        lemma_first_exp_unique(s.drop_first(), d - 1);
    }
}

/// Whether `m` is a mantissa.
fn is_mantissa_exec(m: &[char]) -> (res: bool)
    ensures
        res == is_mantissa(m@),
{
    let mut d: usize = 0;
    while d < m.len() && m[d] != '.'
        invariant
            d <= m@.len(),
            forall|k: int| 0 <= k < d ==> m@[k] != '.',
        decreases m@.len() - d,
    {
        d += 1;
    }
    proof {
        lemma_first_dot_unique(m@, d as int);
    }
    if d == m.len() {
        m.len() > 0 && all_digits_exec(m)
    } else {
        all_digits_exec(&m[0..d]) && all_digits_exec(&m[d + 1..m.len()]) && m.len() > 1
    }
}

/// Whether `x` is an exponent.
fn is_exponent_exec(x: &[char]) -> (res: bool)
    ensures
        res == is_exponent(x@),
{
    let y: &[char] = if x.len() > 0 && (x[0] == '+' || x[0] == '-') {
        &x[1..x.len()]
    } else {
        x
    };
    y.len() > 0 && all_digits_exec(y)
}

/// Whether `b` is a decimal number.
fn is_decimal_exec(b: &[char]) -> (res: bool)
    ensures
        res == is_decimal(b@),
{
    let mut e: usize = 0;
    while e < b.len() && b[e] != 'e' && b[e] != 'E'
        invariant
            e <= b@.len(),
            forall|k: int| 0 <= k < e ==> b@[k] != 'e' && b@[k] != 'E',
        decreases b@.len() - e,
    {
        e += 1;
    }
    proof {
        lemma_first_exp_unique(b@, e as int);
    }
    if !is_mantissa_exec(&b[0..e]) {
        return false;
    }
    e == b.len() || is_exponent_exec(&b[e + 1..b.len()])
}

/// Whether `str::parse::<f64>` accepts `s`.
pub fn is_float_literal_exec(s: &[char]) -> (res: bool)
    ensures
        res == is_float_literal(s@),
{
    let b: &[char] = if s.len() > 0 && (s[0] == '+' || s[0] == '-') {
        &s[1..s.len()]
    } else {
        s
    };
    eq_ignore_ascii_case_str(b, "inf") || eq_ignore_ascii_case_str(b, "infinity")
        || eq_ignore_ascii_case_str(b, "nan") || is_decimal_exec(b)
}

/// The arguments after a keyword.
fn annotation_args_exec(rest: &[char]) -> (res: &[char])
    ensures
        res@ == annotation_args(rest@),
{
    let t = trim_slice(rest);
    match strip_prefix_str(t, ":") {
        Some(after) => trim_slice(after),
        None => t,
    }
}

/// The two sides of the first `".."` in `s`.
fn split_bounds_exec(s: &[char]) -> (res: Option<(&[char], &[char])>)
    ensures
        match (res, split_bounds(s@)) {
            (Some((a, b)), Some((x, y))) => a@ == x && b@ == y,
            (None, None) => true,
            _ => false,
        },
{
    let sep = chars_of("..");
    match find_slice(s, sep.as_slice()) {
        Some(i) => {
            proof {
                lemma_find_occurs(s@, sep@, 0);
                assert(occurs_at(s@, sep@, i as int));
            }
            assert(i + sep.len() <= s.len());
            Some((&s[0..i], &s[i + sep.len()..s.len()]))
        },
        None => None,
    }
}

/// Parse an eval type annotation from bracket syntax: `[boolean]`, `[range: 5..10]`, etc.
pub fn parse_eval_type(annotation: &str) -> (res: Option<EvalType>)
    ensures
        opt_type_view(res) == spec_parse_eval_type(annotation@),
{
    let a = chars_of(annotation);
    parse_eval_type_chars(a.as_slice())
}

/// [`parse_eval_type`] on the characters of an annotation.
pub fn parse_eval_type_chars(annotation: &[char]) -> (res: Option<EvalType>)
    ensures
        opt_type_view(res) == spec_parse_eval_type(annotation@),
{
    let inner = trim_slice(annotation);
    if eq_ignore_ascii_case_str(inner, "boolean") {
        return Some(EvalType::Boolean);
    }
    if eq_ignore_ascii_case_str(inner, "continuous") {
        return Some(EvalType::Continuous);
    }
    if let Some(rest) = strip_prefix_str(inner, "ordinal") {
        let args = annotation_args_exec(rest);
        if let Some((min_s, max_s)) = split_bounds_exec(args) {
            let min = parse_u32(trim_slice(min_s));
            let max = parse_u32(trim_slice(max_s));
            if let (Some(min), Some(max)) = (min, max) {
                return Some(EvalType::Ordinal { min, max });
            }
        }
        return Some(EvalType::Ordinal { min: 1, max: 5 });
    }
    if let Some(rest) = strip_prefix_str(inner, "range") {
        let args = annotation_args_exec(rest);
        if let Some((low_s, high_s)) = split_bounds_exec(args) {
            let low = trim_slice(low_s);
            let high = trim_slice(high_s);
            if is_float_literal_exec(low) && is_float_literal_exec(high) {
                return Some(EvalType::Range { low: string_of(low), high: string_of(high) });
            }
        }
    }
    None
}

} // verus!
