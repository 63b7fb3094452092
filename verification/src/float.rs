//! The textual form of a floating-point number that `f64::from_str` accepts.
//!
//! The standard library documents the grammar it accepts, after lowercasing:
//!
//! ```text
//! Float  ::= Sign? ( 'inf' | 'infinity' | 'nan' | Number )
//! Number ::= ( Digit+ | Digit+ '.' Digit* | Digit* '.' Digit+ ) Exp?
//! Exp    ::= 'e' Sign? Digit+
//! Sign   ::= [+-]
//! Digit  ::= [0-9]
//! ```
//!
//! The library only needs to know whether a word is such a number; its value
//! is read where the number is shown.

use vstd::prelude::*;

verus! {

pub open spec fn is_digit(c: char) -> bool {
    '0' <= c && c <= '9'
}

/// Length of the run of ASCII digits at the start of `s`.
pub open spec fn digit_run(s: Seq<char>) -> nat
    decreases s.len(),
{
    if s.len() > 0 && is_digit(s[0]) {
        1 + digit_run(s.drop_first())
    } else {
        0
    }
}

pub open spec fn all_digits(s: Seq<char>) -> bool {
    forall|i: int| 0 <= i < s.len() ==> is_digit(#[trigger] s[i])
}

/// `s` without one leading sign character.
pub open spec fn unsigned_part(s: Seq<char>) -> Seq<char> {
    if s.len() > 0 && (s[0] == '+' || s[0] == '-') {
        s.drop_first()
    } else {
        s
    }
}

/// `c` is the lowercase ASCII letter `l` in either case.
pub open spec fn same_letter(c: char, l: char) -> bool {
    c == l || c as int == l as int - 32
}

/// `s` spells the lowercase ASCII word `w` in any mix of cases.
pub open spec fn spells(s: Seq<char>, w: Seq<char>) -> bool {
    s.len() == w.len() && forall|i: int| 0 <= i < s.len() ==> same_letter(#[trigger] s[i], w[i])
}

/// `Exp ::= 'e' Sign? Digit+`, with either case of `e`.
pub open spec fn exponent_text(s: Seq<char>) -> bool {
    &&& s.len() > 0
    &&& same_letter(s[0], 'e')
    &&& unsigned_part(s.drop_first()).len() > 0
    &&& all_digits(unsigned_part(s.drop_first()))
}

/// `Number`: digits, an optional point with digits, at least one digit in
/// all, then an optional exponent.
pub open spec fn number_text(s: Seq<char>) -> bool {
    let a = digit_run(s);
    let rest = s.skip(a as int);
    if rest.len() > 0 && rest[0] == '.' {
        let b = digit_run(rest.drop_first());
        let tail = rest.skip(1 + b as int);
        a + b > 0 && (tail.len() == 0 || exponent_text(tail))
    } else {
        a > 0 && (rest.len() == 0 || exponent_text(rest))
    }
}

/// `s` is text that `f64::from_str` parses.
pub open spec fn float_text(s: Seq<char>) -> bool {
    let t = unsigned_part(s);
    ||| spells(t, seq!['i', 'n', 'f'])
    ||| spells(t, seq!['i', 'n', 'f', 'i', 'n', 'i', 't', 'y'])
    ||| spells(t, seq!['n', 'a', 'n'])
    ||| number_text(t)
}

/// Whether a word is a number does not depend on its sign: a word without a
/// sign, with `-` or with `+` put in front, is a number in all three forms
/// or in none.
pub proof fn lemma_sign_does_not_matter(d: Seq<char>)
    requires
        d.len() == 0 || (d[0] != '+' && d[0] != '-'),
    ensures
        float_text(seq!['-'] + d) == float_text(d),
        float_text(seq!['+'] + d) == float_text(d),
{
    assert((seq!['-'] + d).drop_first() =~= d);
    assert((seq!['+'] + d).drop_first() =~= d);
}

proof fn lemma_digit_run_exact(s: Seq<char>, k: int)
    requires
        0 <= k <= s.len(),
        forall|j: int| 0 <= j < k ==> is_digit(#[trigger] s[j]),
        k == s.len() || !is_digit(s[k]),
    ensures
        digit_run(s) == k,
    decreases k,
{
    if k > 0 {
        let t = s.drop_first();
        assert forall|j: int| 0 <= j < k - 1 implies is_digit(#[trigger] t[j]) by {
            assert(t[j] == s[j + 1]);
        }
        lemma_digit_run_exact(t, k - 1);
    }
}

fn is_digit_char(c: char) -> (r: bool)
    ensures
        r == is_digit(c),
{
    '0' <= c && c <= '9'
}

fn same_letter_char(c: char, l: char) -> (r: bool)
    requires
        'a' <= l <= 'z',
    ensures
        r == same_letter(c, l),
{
    c == l || (c as u32) + 32 == (l as u32)
}

/// End of the run of digits of `v` that starts at `from`, bounded by `end`.
fn digit_run_end(v: &Vec<char>, from: usize, end: usize) -> (r: usize)
    requires
        from <= end <= v.len(),
    ensures
        from <= r <= end,
        r - from == digit_run(v@.subrange(from as int, end as int)),
{
    let mut i = from;
    while i < end && is_digit_char(v[i])
        invariant
            from <= i <= end <= v.len(),
            forall|j: int| from <= j < i ==> is_digit(#[trigger] v@[j]),
        decreases end - i,
    {
        i = i + 1;
    }
    proof {
        let s = v@.subrange(from as int, end as int);
        assert forall|j: int| 0 <= j < i - from implies is_digit(#[trigger] s[j]) by {
            assert(s[j] == v@[from + j]);
        }
        lemma_digit_run_exact(s, i - from);
    }
    i
}

/// Whether `v[from..end]` is `w` in any mix of cases.
fn spells_at(v: &Vec<char>, from: usize, end: usize, w: &Vec<char>) -> (r: bool)
    requires
        from <= end <= v.len(),
        forall|i: int| 0 <= i < w.len() ==> 'a' <= #[trigger] w@[i] <= 'z',
    ensures
        r == spells(v@.subrange(from as int, end as int), w@),
{
    if end - from != w.len() {
        return false;
    }
    let mut i: usize = 0;
    while i < w.len()
        invariant
            from <= end <= v.len(),
            end - from == w.len(),
            forall|k: int| 0 <= k < w.len() ==> 'a' <= #[trigger] w@[k] <= 'z',
            i <= w.len(),
            forall|k: int| 0 <= k < i ==> same_letter(#[trigger] v@[from + k], w@[k]),
        decreases w.len() - i,
    {
        if !same_letter_char(v[from + i], w[i]) {
            assert(v@.subrange(from as int, end as int)[i as int] == v@[from + i]);
            return false;
        }
        i = i + 1;
    }
    let ghost s = v@.subrange(from as int, end as int);
    assert forall|k: int| 0 <= k < s.len() implies same_letter(#[trigger] s[k], w@[k]) by {
        assert(s[k] == v@[from + k]);
    }
    true
}

/// Whether `v[from..end]` is an exponent part.
fn exponent_at(v: &Vec<char>, from: usize, end: usize) -> (r: bool)
    requires
        from <= end <= v.len(),
    ensures
        r == exponent_text(v@.subrange(from as int, end as int)),
{
    let ghost s = v@.subrange(from as int, end as int);
    if from == end || !same_letter_char(v[from], 'e') {
        return false;
    }
    let mut d = from + 1;
    if d < end && (v[d] == '+' || v[d] == '-') {
        d = d + 1;
    }
    assert(unsigned_part(s.drop_first()) =~= v@.subrange(d as int, end as int));
    let stop = digit_run_end(v, d, end);
    proof {
        let u = v@.subrange(d as int, end as int);
        if stop == end {
            lemma_digits_prefix(u, (end - d) as int);
        } else {
            lemma_digits_prefix(u, (stop - d) as int);
            assert(u[stop - d] == v@[stop as int]);
        }
    }
    d < end && stop == end
}

proof fn lemma_digits_prefix(u: Seq<char>, k: int)
    requires
        0 <= k <= u.len(),
        digit_run(u) == k,
    ensures
        forall|j: int| 0 <= j < k ==> is_digit(#[trigger] u[j]),
        k < u.len() ==> !is_digit(u[k]),
    decreases k,
{
    if k > 0 {
        lemma_digits_prefix(u.drop_first(), k - 1);
        assert forall|j: int| 0 <= j < k implies is_digit(#[trigger] u[j]) by {
            if j > 0 {
                assert(u[j] == u.drop_first()[j - 1]);
            }
        }
        if k < u.len() {
            assert(u[k] == u.drop_first()[k - 1]);
        }
    }
}

/// Whether `v[from..end]` is text that `f64::from_str` parses.
pub fn float_text_at(v: &Vec<char>, from: usize, end: usize) -> (r: bool)
    requires
        from <= end <= v.len(),
    ensures
        r == float_text(v@.subrange(from as int, end as int)),
{
    let ghost s = v@.subrange(from as int, end as int);
    let mut t = from;
    if t < end && (v[t] == '+' || v[t] == '-') {
        t = t + 1;
    }
    let ghost u = v@.subrange(t as int, end as int);
    assert(unsigned_part(s) =~= u);
    let inf = vec!['i', 'n', 'f'];
    let infinity = vec!['i', 'n', 'f', 'i', 'n', 'i', 't', 'y'];
    let nan = vec!['n', 'a', 'n'];
    assert(inf@ =~= seq!['i', 'n', 'f']);
    assert(infinity@ =~= seq!['i', 'n', 'f', 'i', 'n', 'i', 't', 'y']);
    assert(nan@ =~= seq!['n', 'a', 'n']);
    if spells_at(v, t, end, &inf) || spells_at(v, t, end, &infinity) || spells_at(v, t, end, &nan) {
        return true;
    }
    let a = digit_run_end(v, t, end);
    assert(u.skip(a - t) =~= v@.subrange(a as int, end as int));
    if a < end && v[a] == '.' {
        let b = digit_run_end(v, a + 1, end);
        assert(u.skip(a - t).drop_first() =~= v@.subrange(a + 1, end as int));
        assert(u.skip(a - t).skip(1 + (b - (a + 1))) =~= v@.subrange(b as int, end as int));
        (a - t) + (b - (a + 1)) > 0 && (b == end || exponent_at(v, b, end))
    } else {
        a > t && (a == end || exponent_at(v, a, end))
    }
}

} // verus!
