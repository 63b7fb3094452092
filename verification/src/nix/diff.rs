//! Parsing the lines of `nix store diff-closures`.
//!
//! A line names a package, then the versions it had, an arrow and the
//! versions it has, then the change in its size; the parts that do not
//! apply are left out. A size change is a number followed by a unit (`B`,
//! `KiB`, `MiB`, ...), a word that is not itself a number:
//!
//! ```text
//! name: old_ver → new_ver, +/- size Unit
//! name: old_ver1, old_ver2 → new_ver1, new_ver2, +/- size Unit
//! name: new_ver1, +/- size Unit
//! name: +/- size Unit
//! extra.targets: ε → ∅
//! name:
//! ```
//!
//! A line without an arrow that is not one of these forms is read as a name
//! and a size, the two words after the name, provided the first of them is a
//! number; else it is refused.

use vstd::prelude::*;
use vstd::string::*;

use crate::float::{float_text, float_text_at};
use crate::model::package::{PackageChange, PackageChangeView, Size, SizeView};
use crate::text::{
    is_white, lemma_trim_end, lemma_words_are_dark, chars_of, lines, spans_denote, split_lines, text_of, trim_end, trim_end_at, word_spans, words,
};

verus! {

/// The text of `s` with its ANSI escape sequences taken out, as
/// `strip_ansi_escapes::strip_str` computes it.
pub uninterp spec fn stripped_text(s: Seq<char>) -> Seq<char>;

/// Calls `strip_ansi_escapes::strip_str`, which runs the text through a
/// terminal escape parser and keeps only what it prints. The contract names
/// the result and claims nothing more of it.
#[verifier::external_body]
fn strip_escapes(s: &str) -> (r: String)
    ensures
        r@ == stripped_text(s@),
{
    strip_ansi_escapes::strip_str(s)
}

/// The words of a line, each without its trailing commas.
pub open spec fn change_fields(line: Seq<char>) -> Seq<Seq<char>> {
    words(line).map_values(|w: Seq<char>| trim_end(w, ','))
}

pub open spec fn is_arrow(w: Seq<char>) -> bool {
    w == seq!['→']
}

/// Index of the first arrow among `f`, or `f.len()` where there is none.
pub open spec fn find_arrow(f: Seq<Seq<char>>) -> nat
    decreases f.len(),
{
    if f.len() == 0 {
        0
    } else if is_arrow(f[0]) {
        0
    } else {
        1 + find_arrow(f.drop_first())
    }
}

/// A version list that is only the empty-set or empty-string sign.
pub open spec fn is_placeholder(vs: Seq<Seq<char>>) -> bool {
    vs.len() == 1 && (vs[0] == seq!['∅'] || vs[0] == seq!['ε'])
}

/// A version list with a lone placeholder read as no versions.
pub open spec fn versions(vs: Seq<Seq<char>>) -> Seq<Seq<char>> {
    if is_placeholder(vs) {
        seq![]
    } else {
        vs
    }
}

/// Why a diff line was refused.
#[derive(Clone, Copy, Debug, PartialEq, Eq, Structural)]
pub enum ParseError {
    /// A line without an arrow whose second word is not a number, and which
    /// does not end in a size.
    SizeNotANumber,
}

/// The words of `f` from index `from` on end in a size: a number, then a
/// unit that is not a number.
pub open spec fn ends_in_size(f: Seq<Seq<char>>, from: int) -> bool {
    &&& f.len() >= from + 2
    &&& float_text(f[f.len() - 2])
    &&& !float_text(f[f.len() - 1])
}

/// The lines that parse or are refused with an error. The others cannot be
/// read at all: a line with no words, one whose first word is an arrow, and
/// a name followed only by a number, with no unit after it.
pub open spec fn line_is_readable(line: Seq<char>) -> bool {
    let f = change_fields(line);
    &&& f.len() > 0
    &&& find_arrow(f) != 0
    &&& !(find_arrow(f) == f.len() && f.len() == 2 && float_text(f[1]))
}

/// What a readable line says. The first word is the name. With an arrow,
/// the words between the name and the arrow are the old versions and those
/// after it the new ones, the last two words being the size where they are
/// a number and a unit after the arrow. Without an arrow, a lone name has no
/// versions and no size; a line that ends in a size after at least one more
/// word lists new versions before the size; any other line is the name and
/// the size given by the two words after it, refused where the first of them
/// is not a number. A lone `∅` or `ε` stands for no versions.
pub open spec fn parse_line(line: Seq<char>) -> Result<PackageChangeView, ParseError> {
    let f = change_fields(line);
    let a = find_arrow(f) as int;
    let n = f.len() as int;
    let name = trim_end(f[0], ':');
    if a == n {
        if n == 1 {
            Ok(PackageChangeView { pkg_name: name, old_ver: seq![], new_ver: seq![], size_delta: None })
        } else if ends_in_size(f, 2) {
            Ok(
                PackageChangeView {
                    pkg_name: name,
                    old_ver: seq![],
                    new_ver: versions(f.subrange(1, n - 2)),
                    size_delta: Some(SizeView { delta: f[n - 2], unit: f[n - 1] }),
                },
            )
        } else if float_text(f[1]) {
            Ok(
                PackageChangeView {
                    pkg_name: name,
                    old_ver: seq![],
                    new_ver: seq![],
                    size_delta: Some(SizeView { delta: f[1], unit: f[2] }),
                },
            )
        } else {
            Err(ParseError::SizeNotANumber)
        }
    } else {
        let sized = ends_in_size(f, a + 1);
        let end = if sized {
            n - 2
        } else {
            n
        };
        Ok(
            PackageChangeView {
                pkg_name: name,
                old_ver: versions(f.subrange(1, a)),
                new_ver: versions(f.subrange(a + 1, end)),
                size_delta: if sized {
                    Some(SizeView { delta: f[n - 2], unit: f[n - 1] })
                } else {
                    None
                },
            },
        )
    }
}

pub open spec fn result_view(r: Result<PackageChange, ParseError>) -> Result<PackageChangeView, ParseError> {
    match r {
        Ok(p) => Ok(p@),
        Err(e) => Err(e),
    }
}

/// `s` holds no whitespace.
pub open spec fn dark(s: Seq<char>) -> bool {
    forall|i: int| 0 <= i < s.len() ==> !is_white(#[trigger] s[i])
}

proof fn lemma_fields_dark(line: Seq<char>)
    ensures
        forall|k: int|
            0 <= k < change_fields(line).len() ==> dark(#[trigger] change_fields(line)[k]) && (
            change_fields(line)[k].len() > 0 ==> change_fields(line)[k].last() != ','),
{
    lemma_words_are_dark(line);
    let w = words(line);
    let f = change_fields(line);
    assert forall|k: int| 0 <= k < f.len() implies dark(#[trigger] f[k]) && (f[k].len() > 0
        ==> f[k].last() != ',') by {
        lemma_trim_end(w[k], ',');
        assert forall|i: int| 0 <= i < f[k].len() implies !is_white(#[trigger] f[k][i]) by {
            assert(f[k][i] == w[k][i]);
        }
    }
}

/// What a line parses to: a name and versions without whitespace, a name
/// without a trailing colon, versions without a trailing comma, never a lone
/// placeholder as a version list, and a size whose number is a number.
pub proof fn lemma_parsed_parts(line: Seq<char>)
    requires
        line_is_readable(line),
    ensures
        parse_line(line) matches Ok(p) ==> {
            &&& dark(p.pkg_name)
            &&& p.pkg_name.len() > 0 ==> p.pkg_name.last() != ':'
            &&& forall|i: int| 0 <= i < p.old_ver.len() ==> dark(#[trigger] p.old_ver[i]) && (
            p.old_ver[i].len() > 0 ==> p.old_ver[i].last() != ',')
            &&& forall|i: int| 0 <= i < p.new_ver.len() ==> dark(#[trigger] p.new_ver[i]) && (
            p.new_ver[i].len() > 0 ==> p.new_ver[i].last() != ',')
            &&& !is_placeholder(p.old_ver)
            &&& !is_placeholder(p.new_ver)
            &&& p.size_delta matches Some(sz) ==> float_text(sz.delta) && dark(sz.delta) && dark(
                sz.unit,
            )
        },
{
    lemma_fields_dark(line);
    let f = change_fields(line);
    let a = find_arrow(f) as int;
    let n = f.len() as int;
    lemma_find_arrow_bound(f);
    lemma_trim_end(f[0], ':');
    assert(dark(f[0]));
    let name = trim_end(f[0], ':');
    assert forall|i: int| 0 <= i < name.len() implies !is_white(#[trigger] name[i]) by {
        assert(name[i] == f[0][i]);
    }
    if n >= 3 {
        assert(dark(f[1]) && dark(f[2]));
        assert(dark(f[n - 2]) && dark(f[n - 1]));
    }
    let from = if a == n {
        1
    } else {
        a + 1
    };
    let end = if (a == n && ends_in_size(f, 2)) || (a < n && ends_in_size(f, a + 1)) {
        n - 2
    } else {
        n
    };
    let o = f.subrange(1, a);
    assert forall|i: int| 0 <= i < o.len() implies dark(#[trigger] o[i]) && (o[i].len() > 0
        ==> o[i].last() != ',') by {
        assert(o[i] == f[i + 1]);
    }
    if from <= end {
        let w = f.subrange(from, end);
        assert forall|i: int| 0 <= i < w.len() implies dark(#[trigger] w[i]) && (w[i].len() > 0
            ==> w[i].last() != ',') by {
            assert(w[i] == f[i + from]);
        }
    }
}

/// A line without an arrow made of a name, a number of either sign and a
/// unit is read as a size-only change: no versions, that number and that
/// unit as its size.
pub proof fn lemma_size_only_line(line: Seq<char>)
    requires
        change_fields(line).len() == 3,
        forall|i: int| 0 <= i < 3 ==> !is_arrow(#[trigger] change_fields(line)[i]),
        float_text(change_fields(line)[1]),
    ensures
        line_is_readable(line),
        parse_line(line) == Ok::<PackageChangeView, ParseError>(
            PackageChangeView {
                pkg_name: trim_end(change_fields(line)[0], ':'),
                old_ver: seq![],
                new_ver: seq![],
                size_delta: Some(
                    SizeView { delta: change_fields(line)[1], unit: change_fields(line)[2] },
                ),
            },
        ),
{
    lemma_find_arrow_exact(change_fields(line), 3);
}

/// A line without an arrow whose second word is a number, of either sign,
/// and which has a word after it, is never refused and always has a size.
pub proof fn lemma_number_after_name_is_accepted(line: Seq<char>)
    requires
        change_fields(line).len() >= 3,
        forall|i: int|
            0 <= i < change_fields(line).len() ==> !is_arrow(#[trigger] change_fields(line)[i]),
        float_text(change_fields(line)[1]),
    ensures
        line_is_readable(line),
        parse_line(line) matches Ok(p) && p.size_delta is Some && p.old_ver.len() == 0,
{
    lemma_find_arrow_exact(change_fields(line), change_fields(line).len() as int);
}

proof fn lemma_find_arrow_bound(f: Seq<Seq<char>>)
    ensures
        find_arrow(f) <= f.len(),
    decreases f.len(),
{
    if f.len() > 0 && !is_arrow(f[0]) {
        lemma_find_arrow_bound(f.drop_first());
    }
}

proof fn lemma_find_arrow_exact(f: Seq<Seq<char>>, i: int)
    requires
        0 <= i <= f.len(),
        forall|j: int| 0 <= j < i ==> !is_arrow(#[trigger] f[j]),
        i == f.len() || is_arrow(f[i]),
    ensures
        find_arrow(f) == i,
    decreases i,
{
    if i > 0 {
        let g = f.drop_first();
        assert forall|j: int| 0 <= j < i - 1 implies !is_arrow(#[trigger] g[j]) by {
            assert(g[j] == f[j + 1]);
        }
        lemma_find_arrow_exact(g, i - 1);
    }
}

/// The spans of the words of `v` without their trailing commas.
fn field_spans(v: &Vec<char>, spans: &Vec<(usize, usize)>) -> (r: Vec<(usize, usize)>)
    requires
        spans_denote(v@, spans@, words(v@)),
    ensures
        spans_denote(v@, r@, change_fields(v@)),
{
    let ghost ws = words(v@);
    let ghost f = change_fields(v@);
    let mut r: Vec<(usize, usize)> = Vec::new();
    let mut k: usize = 0;
    while k < spans.len()
        invariant
            ws == words(v@),
            f == change_fields(v@),
            spans_denote(v@, spans@, ws),
            k <= spans.len(),
            spans_denote(v@, r@, f.take(k as int)),
        decreases spans.len() - k,
    {
        let (a, b) = spans[k];
        assert(spans@[k as int].0 <= spans@[k as int].1 <= v@.len());
        let e = trim_end_at(v, a, b, ',');
        let ghost prev = r@;
        r.push((a, e));
        proof {
            let g = f.take(k + 1);
            assert(ws[k as int] == v@.subrange(a as int, b as int));
            assert(f.len() == ws.len());
            assert(f[k as int] == trim_end(ws[k as int], ','));
            assert(r@ == prev.push((a, e)));
            assert(g[k as int] == trim_end(ws[k as int], ','));
            assert(r@.len() == k + 1);
            assert(g.len() == k + 1);
            assert(v@.subrange(a as int, e as int) == g[k as int]);
            assert forall|j: int| 0 <= j < r@.len() implies {
                &&& #[trigger] r@[j].0 <= r@[j].1 <= v@.len()
                &&& v@.subrange(r@[j].0 as int, r@[j].1 as int) == g[j]
            } by {
                if j < k {
                    assert(r@[j] == prev[j]);
                    assert(prev[j].0 <= prev[j].1 <= v@.len());
                    assert(g[j] == f.take(k as int)[j]);
                } else {
                    assert(r@[j] == (a, e));
                }
            }
            assert(spans_denote(v@, r@, g));
        }
        k = k + 1;
    }
    assert(f.take(spans.len() as int) =~= f);
    r
}

/// Index of the first arrow among the fields `f` of `v`, or `f.len()`.
fn arrow_index(v: &Vec<char>, fs: &Vec<(usize, usize)>, Ghost(f): Ghost<Seq<Seq<char>>>) -> (r: usize)
    requires
        spans_denote(v@, fs@, f),
    ensures
        r == find_arrow(f),
        r <= fs.len(),
{
    let mut i: usize = 0;
    while i < fs.len()
        invariant
            spans_denote(v@, fs@, f),
            i <= fs.len(),
            forall|j: int| 0 <= j < i ==> !is_arrow(#[trigger] f[j]),
        decreases fs.len() - i,
    {
        let (a, b) = fs[i];
        assert(fs@[i as int].0 <= fs@[i as int].1 <= v@.len());
        if b - a == 1 && v[a] == '→' {
            assert(v@.subrange(a as int, b as int) =~= seq!['→']);
            proof { lemma_find_arrow_exact(f, i as int); }
            return i;
        }
        proof {
            assert(f[i as int] == v@.subrange(a as int, b as int));
            if is_arrow(f[i as int]) {
                assert(f[i as int].len() == 1);
                assert(v@.subrange(a as int, b as int)[0] == v@[a as int]);
            }
        }
        i = i + 1;
    }
    proof { lemma_find_arrow_exact(f, i as int); }
    i
}

/// Whether field `k` of `v` is the single character `c`.
fn field_is_char(v: &Vec<char>, fs: &Vec<(usize, usize)>, k: usize, c: char, Ghost(f): Ghost<Seq<Seq<char>>>) -> (r: bool)
    requires
        spans_denote(v@, fs@, f),
        k < fs.len(),
    ensures
        r == (f[k as int] == seq![c]),
{
    let (a, b) = fs[k];
    assert(fs@[k as int].0 <= fs@[k as int].1 <= v@.len());
    let ghost w = v@.subrange(a as int, b as int);
    assert(f[k as int] == w);
    if b - a == 1 && v[a] == c {
        assert(w =~= seq![c]);
        true
    } else {
        proof {
            assert(f[k as int] == w);
            if w == seq![c] {
                assert(w.len() == 1);
                assert(w[0] == v@[a as int]);
            }
        }
        false
    }
}

/// The fields `from..to` of `line` as strings, read as a version list.
fn version_strings(
    line: &str,
    v: &Vec<char>,
    fs: &Vec<(usize, usize)>,
    from: usize,
    to: usize,
    Ghost(f): Ghost<Seq<Seq<char>>>,
) -> (r: Vec<String>)
    requires
        v@ == line@,
        spans_denote(v@, fs@, f),
        from <= to <= fs.len(),
    ensures
        r.deep_view() == versions(f.subrange(from as int, to as int)),
{
    let ghost want = f.subrange(from as int, to as int);
    if to - from == 1 && (field_is_char(v, fs, from, '∅', Ghost(f)) || field_is_char(
        v,
        fs,
        from,
        'ε',
        Ghost(f),
    )) {
        return Vec::new();
    }
    let mut r: Vec<String> = Vec::new();
    let mut k = from;
    while k < to
        invariant
            v@ == line@,
            spans_denote(v@, fs@, f),
            from <= k <= to <= fs.len(),
            r.deep_view() == f.subrange(from as int, k as int),
        decreases to - k,
    {
        let (a, b) = fs[k];
        assert(fs@[k as int].0 <= fs@[k as int].1 <= v@.len());
        let t = text_of(line, a, b);
        let ghost prev = r.deep_view();
        let ghost tv = t@;
        r.push(t);
        assert(r.deep_view() =~= prev.push(tv));
        assert(prev.push(tv) =~= f.subrange(from as int, k + 1));
        k = k + 1;
    }
    r
}

/// Whether the fields of `v` from index `from` on end in a size (see
/// `ends_in_size`).
fn ends_in_size_at(v: &Vec<char>, fs: &Vec<(usize, usize)>, from: usize, Ghost(f): Ghost<Seq<Seq<char>>>) -> (r: bool)
    requires
        spans_denote(v@, fs@, f),
    ensures
        r == ends_in_size(f, from as int),
{
    let n = fs.len();
    if n < 2 || n - 2 < from {
        return false;
    }
    let (sd, ed) = fs[n - 2];
    let (su, eu) = fs[n - 1];
    assert(fs@[n - 2].0 <= fs@[n - 2].1 <= v@.len());
    assert(fs@[n - 1].0 <= fs@[n - 1].1 <= v@.len());
    float_text_at(v, sd, ed) && !float_text_at(v, su, eu)
}

/// Reads one line of `nix store diff-closures` output whose escape sequences
/// are already taken out.
pub fn parse_change_line(line: &str) -> (r: Result<PackageChange, ParseError>)
    requires
        line_is_readable(line@),
    ensures
        result_view(r) == parse_line(line@),
{
    let v = chars_of(line);
    let spans = word_spans(&v);
    let fs = field_spans(&v, &spans);
    let ghost f = change_fields(line@);
    let n = fs.len();
    let a = arrow_index(&v, &fs, Ghost(f));
    let (s0, e0) = fs[0];
    assert(fs@[0].0 <= fs@[0].1 <= v@.len());
    let name_end = trim_end_at(&v, s0, e0, ':');
    let name = text_of(line, s0, name_end);
    if a == n {
        if n == 1 {
            let r = PackageChange { pkg_name: name, old_ver: Vec::new(), new_ver: Vec::new(), size_delta: None };
            assert(r.old_ver.deep_view() =~= Seq::<Seq<char>>::empty());
            assert(r.new_ver.deep_view() =~= Seq::<Seq<char>>::empty());
            return Ok(r);
        }
        if ends_in_size_at(&v, &fs, 2, Ghost(f)) {
            let (sd, ed) = fs[n - 2];
            let (su, eu) = fs[n - 1];
            assert(fs@[n - 2].0 <= fs@[n - 2].1 <= v@.len());
            assert(fs@[n - 1].0 <= fs@[n - 1].1 <= v@.len());
            let delta = text_of(line, sd, ed);
            let unit = text_of(line, su, eu);
            let new_ver = version_strings(line, &v, &fs, 1, n - 2, Ghost(f));
            let r = PackageChange {
                pkg_name: name,
                old_ver: Vec::new(),
                new_ver,
                size_delta: Some(Size { delta, unit }),
            };
            assert(r.old_ver.deep_view() =~= Seq::<Seq<char>>::empty());
            return Ok(r);
        }
        let (s1, e1) = fs[1];
        assert(fs@[1].0 <= fs@[1].1 <= v@.len());
        if float_text_at(&v, s1, e1) {
            let (s2, e2) = fs[2];
            assert(fs@[2].0 <= fs@[2].1 <= v@.len());
            let delta = text_of(line, s1, e1);
            let unit = text_of(line, s2, e2);
            let r = PackageChange {
                pkg_name: name,
                old_ver: Vec::new(),
                new_ver: Vec::new(),
                size_delta: Some(Size { delta, unit }),
            };
            assert(r.old_ver.deep_view() =~= Seq::<Seq<char>>::empty());
            assert(r.new_ver.deep_view() =~= Seq::<Seq<char>>::empty());
            Ok(r)
        } else {
            Err(ParseError::SizeNotANumber)
        }
    } else {
        let mut end = n;
        let mut size_delta: Option<Size> = None;
        if ends_in_size_at(&v, &fs, a + 1, Ghost(f)) {
            let (sd, ed) = fs[n - 2];
            let (su, eu) = fs[n - 1];
            assert(fs@[n - 2].0 <= fs@[n - 2].1 <= v@.len());
            assert(fs@[n - 1].0 <= fs@[n - 1].1 <= v@.len());
            let delta = text_of(line, sd, ed);
            let unit = text_of(line, su, eu);
            size_delta = Some(Size { delta, unit });
            end = n - 2;
        }
        let old_ver = version_strings(line, &v, &fs, 1, a, Ghost(f));
        let new_ver = version_strings(line, &v, &fs, a + 1, end, Ghost(f));
        Ok(PackageChange { pkg_name: name, old_ver, new_ver, size_delta })
    }
}

/// Whether an escape-free line can be read (see `line_is_readable`).
pub fn line_readable(line: &str) -> (r: bool)
    ensures
        r == line_is_readable(line@),
{
    let v = chars_of(line);
    let spans = word_spans(&v);
    let fs = field_spans(&v, &spans);
    let ghost f = change_fields(line@);
    let n = fs.len();
    if n == 0 {
        return false;
    }
    let a = arrow_index(&v, &fs, Ghost(f));
    if a == 0 {
        return false;
    }
    if a == n && n == 2 {
        let (s1, e1) = fs[1];
        assert(fs@[1].0 <= fs@[1].1 <= v@.len());
        !float_text_at(&v, s1, e1)
    } else {
        true
    }
}

/// Reads one line of `nix store diff-closures` output, escape sequences and
/// all. `None` where the line cannot be read (see `line_is_readable`).
pub fn parse_packages(input: &str) -> (r: Option<Result<PackageChange, ParseError>>)
    ensures
        r is None <==> !line_is_readable(stripped_text(input@)),
        r matches Some(x) ==> result_view(x) == parse_line(stripped_text(input@)),
{
    let line = strip_escapes(input);
    if line_readable(line.as_str()) {
        Some(parse_change_line(line.as_str()))
    } else {
        None
    }
}

/// The changes that the lines `ls` describe, read in order: `None` at the
/// first line that cannot be read, the error of the first line refused, or
/// all the changes.
pub open spec fn parse_lines(ls: Seq<Seq<char>>) -> Option<Result<Seq<PackageChangeView>, ParseError>>
    decreases ls.len(),
{
    if ls.len() == 0 {
        Some(Ok(seq![]))
    } else {
        let l = stripped_text(ls[0]);
        if !line_is_readable(l) {
            None
        } else {
            match parse_line(l) {
                Err(e) => Some(Err(e)),
                Ok(p) => match parse_lines(ls.drop_first()) {
                    Some(Ok(ps)) => Some(Ok(seq![p] + ps)),
                    other => other,
                },
            }
        }
    }
}

/// A diff that is read in full gives one change per line, the `i`-th change
/// being what the `i`-th line says.
pub proof fn lemma_one_change_per_line(ls: Seq<Seq<char>>)
    ensures
        parse_lines(ls) matches Some(Ok(ps)) ==> ps.len() == ls.len() && forall|i: int|
            0 <= i < ls.len() ==> parse_line(stripped_text(#[trigger] ls[i])) == Ok::<
                PackageChangeView,
                ParseError,
            >(ps[i]),
    decreases ls.len(),
{
    if ls.len() > 0 {
        let rest = ls.drop_first();
        lemma_one_change_per_line(rest);
        if let Some(Ok(ps)) = parse_lines(ls) {
            assert forall|i: int| 0 <= i < ls.len() implies parse_line(
                stripped_text(#[trigger] ls[i]),
            ) == Ok::<PackageChangeView, ParseError>(ps[i]) by {
                if i > 0 {
                    assert(ls[i] == rest[i - 1]);
                }
            }
        }
    }
}

/// `r` with the changes `done` put before its changes.
pub open spec fn after(done: Seq<PackageChangeView>, r: Option<Result<Seq<PackageChangeView>, ParseError>>) -> Option<Result<Seq<PackageChangeView>, ParseError>> {
    match r {
        Some(Ok(ps)) => Some(Ok(done + ps)),
        other => other,
    }
}

pub open spec fn all_views(r: Option<Result<Vec<PackageChange>, ParseError>>) -> Option<Result<Seq<PackageChangeView>, ParseError>> {
    match r {
        Some(Ok(ps)) => Some(Ok(ps@.map_values(|p: PackageChange| p@))),
        Some(Err(e)) => Some(Err(e)),
        None => None,
    }
}

/// Reads the whole output of `nix store diff-closures`, line by line.
pub fn parse_diff(text: &str) -> (r: Option<Result<Vec<PackageChange>, ParseError>>)
    ensures
        all_views(r) == parse_lines(lines(text@)),
{
    let ls = split_lines(text);
    let ghost lv = ls.deep_view();
    let mut out: Vec<PackageChange> = Vec::new();
    let mut i: usize = 0;
    assert(lv.skip(0) =~= lv);
    assert(out@.map_values(|p: PackageChange| p@) =~= Seq::<PackageChangeView>::empty());
    assert(after(seq![], parse_lines(lv)) == parse_lines(lv)) by {
        match parse_lines(lv) {
            Some(Ok(ps)) => assert(Seq::<PackageChangeView>::empty() + ps =~= ps),
            _ => {},
        }
    }
    while i < ls.len()
        invariant
            lv == ls.deep_view(),
            lv == lines(text@),
            i <= ls.len(),
            parse_lines(lv) == after(out@.map_values(|p: PackageChange| p@), parse_lines(lv.skip(i as int))),
        decreases ls.len() - i,
    {
        let ghost rest = lv.skip(i as int);
        assert(rest[0] == ls[i as int]@);
        assert(rest.drop_first() =~= lv.skip(i + 1));
        match parse_packages(ls[i].as_str()) {
            None => {
                return None;
            },
            Some(Err(e)) => {
                return Some(Err(e));
            },
            Some(Ok(p)) => {
                let ghost done = out@.map_values(|p: PackageChange| p@);
                let ghost pv = p@;
                out.push(p);
                proof {
                    assert(out@.map_values(|p: PackageChange| p@) =~= done.push(pv));
                    match parse_lines(lv.skip(i + 1)) {
                        Some(Ok(ps)) => {
                            assert(done + (seq![pv] + ps) =~= done.push(pv) + ps);
                        },
                        _ => {},
                    }
                }
            },
        }
        i = i + 1;
    }
    assert(lv.skip(i as int) =~= Seq::<Seq<char>>::empty());
    assert(out@.map_values(|p: PackageChange| p@) + Seq::<PackageChangeView>::empty() =~= out@.map_values(|p: PackageChange| p@));
    Some(Ok(out))
}

} // verus!
