//! Character-level text helpers: whitespace splitting, trimming and line
//! splitting, each stated over `Seq<char>`.

use vstd::prelude::*;

verus! {

/// The Unicode `White_Space` property, which `char::is_whitespace` tests.
pub open spec fn is_white(c: char) -> bool {
    ||| ('\u{9}' <= c && c <= '\u{d}')
    ||| c == ' '
    ||| c == '\u{85}'
    ||| c == '\u{a0}'
    ||| c == '\u{1680}'
    ||| ('\u{2000}' <= c && c <= '\u{200a}')
    ||| c == '\u{2028}'
    ||| c == '\u{2029}'
    ||| c == '\u{202f}'
    ||| c == '\u{205f}'
    ||| c == '\u{3000}'
}

/// Whether `c` is a whitespace character (the `White_Space` property).
pub fn is_white_char(c: char) -> (r: bool)
    ensures
        r == is_white(c),
{
    ('\u{9}' <= c && c <= '\u{d}') || c == ' ' || c == '\u{85}' || c == '\u{a0}' || c == '\u{1680}'
        || ('\u{2000}' <= c && c <= '\u{200a}') || c == '\u{2028}' || c == '\u{2029}' || c
        == '\u{202f}' || c == '\u{205f}' || c == '\u{3000}'
}

/// Length of the run of non-whitespace characters at the start of `s`.
pub open spec fn run_len(s: Seq<char>) -> nat
    decreases s.len(),
{
    if s.len() == 0 || is_white(s[0]) {
        0
    } else {
        1 + run_len(s.drop_first())
    }
}

pub proof fn lemma_run_len_bound(s: Seq<char>)
    ensures
        run_len(s) <= s.len(),
        s.len() > 0 && !is_white(s[0]) ==> run_len(s) > 0,
    decreases s.len(),
{
    if s.len() > 0 && !is_white(s[0]) {
        lemma_run_len_bound(s.drop_first());
    }
}

/// The whitespace-separated words of `s`, as `str::split_whitespace` yields
/// them: the maximal runs of non-whitespace characters, in order.
pub open spec fn words(s: Seq<char>) -> Seq<Seq<char>>
    decreases s.len(),
{
    if s.len() == 0 {
        seq![]
    } else if is_white(s[0]) {
        words(s.drop_first())
    } else {
        proof {
            lemma_run_len_bound(s);
        }
        seq![s.take(run_len(s) as int)] + words(s.skip(run_len(s) as int))
    }
}


proof fn lemma_run_is_dark(s: Seq<char>)
    ensures
        forall|j: int| 0 <= j < run_len(s) ==> !is_white(#[trigger] s[j]),
    decreases s.len(),
{
    lemma_run_len_bound(s);
    if s.len() > 0 && !is_white(s[0]) {
        let t = s.drop_first();
        lemma_run_is_dark(t);
        assert forall|j: int| 0 <= j < run_len(s) implies !is_white(#[trigger] s[j]) by {
            if j > 0 {
                assert(s[j] == t[j - 1]);
            }
        }
    }
}

/// The words of a text are non-empty and hold no whitespace.
pub proof fn lemma_words_are_dark(s: Seq<char>)
    ensures
        forall|k: int| 0 <= k < words(s).len() ==> (#[trigger] words(s)[k]).len() > 0,
        forall|k: int, i: int|
            0 <= k < words(s).len() && 0 <= i < words(s)[k].len() ==> !is_white(
                #[trigger] words(s)[k][i],
            ),
    decreases s.len(),
{
    if s.len() > 0 {
        if is_white(s[0]) {
            lemma_words_are_dark(s.drop_first());
            assert(words(s) == words(s.drop_first()));
        } else {
            lemma_run_len_bound(s);
            lemma_run_is_dark(s);
            let r = run_len(s) as int;
            let rest = s.skip(r);
            lemma_words_are_dark(rest);
            let w = words(s);
            assert(w == seq![s.take(r)] + words(rest));
            assert forall|k: int| 0 <= k < w.len() implies (#[trigger] w[k]).len() > 0 by {
                if k > 0 {
                    assert(w[k] == words(rest)[k - 1]);
                }
            }
            assert forall|k: int, i: int|
                0 <= k < w.len() && 0 <= i < w[k].len() implies !is_white(#[trigger] w[k][i]) by {
                if k == 0 {
                    assert(w[0][i] == s[i]);
                } else {
                    assert(w[k] == words(rest)[k - 1]);
                }
            }
        }
    }
}

/// `trim_end(s, c)` is a prefix of `s` that does not end with `c`.
pub proof fn lemma_trim_end(s: Seq<char>, c: char)
    ensures
        trim_end(s, c).len() <= s.len(),
        trim_end(s, c) == s.take(trim_end(s, c).len() as int),
        trim_end(s, c).len() > 0 ==> trim_end(s, c).last() != c,
    decreases s.len(),
{
    if s.len() > 0 && s.last() == c {
        lemma_trim_end(s.drop_last(), c);
        let t = trim_end(s, c);
        assert(s.drop_last().take(t.len() as int) =~= s.take(t.len() as int));
    } else {
        assert(s.take(s.len() as int) =~= s);
    }
}

/// No line holds a line feed.
pub proof fn lemma_lines_hold_no_feed(s: Seq<char>)
    ensures
        forall|k: int, i: int|
            0 <= k < lines(s).len() && 0 <= i < lines(s)[k].len() ==> #[trigger] lines(s)[k][i]
                != '\n',
    decreases s.len(),
{
    if s.len() > 0 {
        lemma_line_len_bound(s);
        let k = line_len(s) as int;
        lemma_line_prefix(s);
        if k < s.len() {
            lemma_lines_hold_no_feed(s.skip(k + 1));
        }
        let ls = lines(s);
        assert forall|j: int, i: int|
            0 <= j < ls.len() && 0 <= i < ls[j].len() implies #[trigger] ls[j][i] != '\n' by {
            if j == 0 {
                if k == s.len() {
                    assert(ls[0] == s);
                    assert(s[i] != '\n');
                } else {
                    let l = s.take(k);
                    assert(ls[0] == strip_cr(l));
                    assert(strip_cr(l)[i] == l[i]);
                    assert(l[i] == s[i]);
                }
            } else {
                assert(ls[j] == lines(s.skip(k + 1))[j - 1]);
            }
        }
    }
}

proof fn lemma_line_prefix(s: Seq<char>)
    ensures
        forall|j: int| 0 <= j < line_len(s) ==> #[trigger] s[j] != '\n',
    decreases s.len(),
{
    lemma_line_len_bound(s);
    if s.len() > 0 && s[0] != '\n' {
        let t = s.drop_first();
        lemma_line_prefix(t);
        assert forall|j: int| 0 <= j < line_len(s) implies #[trigger] s[j] != '\n' by {
            if j > 0 {
                assert(s[j] == t[j - 1]);
            }
        }
    }
}

/// The characters of `s`, in order.
pub fn chars_of(s: &str) -> (v: Vec<char>)
    ensures
        v@ == s@,
{
    let mut v: Vec<char> = Vec::new();
    for c in it: s.chars()
        invariant
            it.seq() == s@,
            v@ == it.seq().take(it.index() as int),
    {
        v.push(c);
    }
    assert(v@ =~= s@);
    v
}

/// Character positions `[start, end)` in the text `t` for each of `fs`: the
/// positions lie in `t` and the characters there are `fs[k]`.
pub open spec fn spans_denote(t: Seq<char>, spans: Seq<(usize, usize)>, fs: Seq<Seq<char>>) -> bool {
    &&& spans.len() == fs.len()
    &&& forall|k: int|
        0 <= k < spans.len() ==> {
            &&& #[trigger] spans[k].0 <= spans[k].1 <= t.len()
            &&& t.subrange(spans[k].0 as int, spans[k].1 as int) == fs[k]
        }
}

proof fn lemma_run_len_exact(s: Seq<char>, k: int)
    requires
        0 <= k <= s.len(),
        forall|j: int| 0 <= j < k ==> !is_white(#[trigger] s[j]),
        k == s.len() || is_white(s[k]),
    ensures
        run_len(s) == k,
    decreases k,
{
    if k > 0 {
        let t = s.drop_first();
        assert forall|j: int| 0 <= j < k - 1 implies !is_white(#[trigger] t[j]) by {
            assert(t[j] == s[j + 1]);
        }
        lemma_run_len_exact(t, k - 1);
    }
}

/// The positions of the whitespace-separated words of `v`.
pub fn word_spans(v: &Vec<char>) -> (spans: Vec<(usize, usize)>)
    ensures
        spans_denote(v@, spans@, words(v@)),
{
    let n = v.len();
    let mut i: usize = 0;
    let mut spans: Vec<(usize, usize)> = Vec::new();
    let ghost mut done: Seq<Seq<char>> = seq![];
    assert(v@.skip(0) =~= v@);
    assert(done + words(v@) =~= words(v@));
    while i < n
        invariant
            n == v.len(),
            i <= n,
            words(v@) == done + words(v@.skip(i as int)),
            spans_denote(v@, spans@, done),
        decreases n - i,
    {
        if is_white_char(v[i]) {
            assert(v@.skip(i as int).drop_first() =~= v@.skip(i + 1));
            i = i + 1;
        } else {
            let start = i;
            while i < n && !is_white_char(v[i])
                invariant
                    n == v.len(),
                    start < n,
                    start <= i <= n,
                    !is_white(v@[start as int]),
                    forall|j: int| start <= j < i ==> !is_white(#[trigger] v@[j]),
                decreases n - i,
            {
                i = i + 1;
            }
            proof {
                let t = v@.skip(start as int);
                assert forall|j: int| 0 <= j < i - start implies !is_white(#[trigger] t[j]) by {
                    assert(t[j] == v@[start + j]);
                }
                lemma_run_len_exact(t, i - start);
                assert(t.take(i - start) =~= v@.subrange(start as int, i as int));
                assert(t.skip(i - start) =~= v@.skip(i as int));
                assert(words(v@.skip(start as int)) == seq![v@.subrange(start as int, i as int)]
                    + words(v@.skip(i as int)));
                done = done.push(v@.subrange(start as int, i as int));
                assert(words(v@) =~= done + words(v@.skip(i as int)));
            }
            spans.push((start, i));
        }
    }
    assert(v@.skip(n as int) =~= Seq::<char>::empty());
    assert(done =~= words(v@));
    spans
}

/// `s` without the trailing copies of `c`, as `str::trim_end_matches(c)`
/// gives it.
pub open spec fn trim_end(s: Seq<char>, c: char) -> Seq<char>
    decreases s.len(),
{
    if s.len() > 0 && s.last() == c {
        trim_end(s.drop_last(), c)
    } else {
        s
    }
}

/// The end of the span `[start, end)` of `v` once the trailing copies of
/// `c` are taken off.
pub fn trim_end_at(v: &Vec<char>, start: usize, end: usize, c: char) -> (e: usize)
    requires
        start <= end <= v.len(),
    ensures
        start <= e <= end,
        v@.subrange(start as int, e as int) == trim_end(v@.subrange(start as int, end as int), c),
{
    let mut e = end;
    while e > start && v[e - 1] == c
        invariant
            start <= e <= end <= v.len(),
            trim_end(v@.subrange(start as int, end as int), c) == trim_end(
                v@.subrange(start as int, e as int),
                c,
            ),
        decreases e,
    {
        assert(v@.subrange(start as int, e as int).drop_last() =~= v@.subrange(
            start as int,
            e - 1,
        ));
        e = e - 1;
    }
    e
}


/// Whether `a` and `b` hold the same characters.
pub fn same_text(a: &str, b: &str) -> (r: bool)
    ensures
        r == (a@ == b@),
{
    let x = chars_of(a);
    let y = chars_of(b);
    if x.len() != y.len() {
        return false;
    }
    let mut i: usize = 0;
    while i < x.len()
        invariant
            x@ == a@,
            y@ == b@,
            x.len() == y.len(),
            i <= x.len(),
            forall|k: int| 0 <= k < i ==> x@[k] == y@[k],
        decreases x.len() - i,
    {
        if x[i] != y[i] {
            assert(x@[i as int] != y@[i as int]);
            return false;
        }
        i = i + 1;
    }
    assert(x@ =~= y@);
    true
}

/// The words of `parts` joined by `sep`.
pub open spec fn join(parts: Seq<Seq<char>>, sep: Seq<char>) -> Seq<char>
    decreases parts.len(),
{
    if parts.len() == 0 {
        seq![]
    } else if parts.len() == 1 {
        parts[0]
    } else {
        join(parts.drop_last(), sep) + sep + parts.last()
    }
}

/// Appends to `out` the strings of `parts` joined by `sep`.
pub fn push_joined(out: &mut String, parts: &Vec<String>, sep: &str)
    ensures
        final(out)@ == old(out)@ + join(parts.deep_view(), sep@),
{
    let ghost start = out@;
    let ghost ps = parts.deep_view();
    let mut i: usize = 0;
    while i < parts.len()
        invariant
            i <= parts.len(),
            ps == parts.deep_view(),
            ps.len() == parts.len(),
            out@ == start + join(ps.take(i as int), sep@),
        decreases parts.len() - i,
    {
        assert(ps[i as int] == parts[i as int]@);
        if i != 0 {
            out.append(sep);
        }
        out.append(parts[i].as_str());
        assert(ps.take(i + 1).drop_last() =~= ps.take(i as int));
        proof {
            if i == 0 {
                assert(ps.take(1) =~= seq![ps[0]]);
            }
        }
        i = i + 1;
    }
    assert(ps.take(parts.len() as int) =~= ps);
}


/// Length of `s` up to its first line feed (all of `s` where there is none).
pub open spec fn line_len(s: Seq<char>) -> nat
    decreases s.len(),
{
    if s.len() == 0 || s[0] == '\n' {
        0
    } else {
        1 + line_len(s.drop_first())
    }
}

pub proof fn lemma_line_len_bound(s: Seq<char>)
    ensures
        line_len(s) <= s.len(),
    decreases s.len(),
{
    if s.len() > 0 && s[0] != '\n' {
        lemma_line_len_bound(s.drop_first());
    }
}

proof fn lemma_line_len_exact(s: Seq<char>, k: int)
    requires
        0 <= k <= s.len(),
        forall|j: int| 0 <= j < k ==> #[trigger] s[j] != '\n',
        k == s.len() || s[k] == '\n',
    ensures
        line_len(s) == k,
    decreases k,
{
    if k > 0 {
        let t = s.drop_first();
        assert forall|j: int| 0 <= j < k - 1 implies #[trigger] t[j] != '\n' by {
            assert(t[j] == s[j + 1]);
        }
        lemma_line_len_exact(t, k - 1);
    }
}

/// A line without the carriage return that ended it.
pub open spec fn strip_cr(l: Seq<char>) -> Seq<char> {
    if l.len() > 0 && l.last() == '\r' {
        l.drop_last()
    } else {
        l
    }
}

/// The lines of `s`, as `str::lines` yields them: split at each line feed,
/// a carriage return just before a line feed dropped, and no empty line
/// after a final line feed.
pub open spec fn lines(s: Seq<char>) -> Seq<Seq<char>>
    decreases s.len(),
{
    if s.len() == 0 {
        seq![]
    } else {
        proof {
            lemma_line_len_bound(s);
        }
        let k = line_len(s) as int;
        if k == s.len() {
            seq![s]
        } else {
            seq![strip_cr(s.take(k))] + lines(s.skip(k + 1))
        }
    }
}

/// The positions of the lines of `v`.
pub fn line_spans(v: &Vec<char>) -> (spans: Vec<(usize, usize)>)
    ensures
        spans_denote(v@, spans@, lines(v@)),
{
    let n = v.len();
    let mut i: usize = 0;
    let mut spans: Vec<(usize, usize)> = Vec::new();
    let ghost mut done: Seq<Seq<char>> = seq![];
    assert(v@.skip(0) =~= v@);
    assert(done + lines(v@) =~= lines(v@));
    while i < n
        invariant
            n == v.len(),
            i <= n,
            lines(v@) == done + lines(v@.skip(i as int)),
            spans_denote(v@, spans@, done),
        decreases n - i,
    {
        let start = i;
        while i < n && v[i] != '\n'
            invariant
                n == v.len(),
                start <= i <= n,
                forall|j: int| start <= j < i ==> #[trigger] v@[j] != '\n',
            decreases n - i,
        {
            i = i + 1;
        }
        let ghost t = v@.skip(start as int);
        proof {
            assert forall|j: int| 0 <= j < i - start implies #[trigger] t[j] != '\n' by {
                assert(t[j] == v@[start + j]);
            }
            lemma_line_len_exact(t, i - start);
            assert(t.take(i - start) =~= v@.subrange(start as int, i as int));
        }
        if i == n {
            assert(t =~= v@.subrange(start as int, i as int));
            assert(v@.skip(n as int) =~= Seq::<char>::empty());
            spans.push((start, i));
            proof {
                done = done.push(v@.subrange(start as int, i as int));
                assert(lines(v@) =~= done + lines(v@.skip(i as int)));
            }
        } else {
            let mut end = i;
            if end > start && v[end - 1] == '\r' {
                end = end - 1;
            }
            proof {
                let l = v@.subrange(start as int, i as int);
                assert(strip_cr(l) =~= v@.subrange(start as int, end as int));
                assert(t.skip(i - start + 1) =~= v@.skip(i + 1));
                done = done.push(v@.subrange(start as int, end as int));
                assert(lines(v@) =~= done + lines(v@.skip(i + 1)));
            }
            spans.push((start, end));
            i = i + 1;
        }
    }
    assert(v@.skip(n as int) =~= Seq::<char>::empty());
    assert(done =~= lines(v@));
    spans
}


/// The characters of `text` at positions `[start, end)`.
pub fn text_of(text: &str, start: usize, end: usize) -> (r: String)
    requires
        start <= end <= text@.len(),
    ensures
        r@ == text@.subrange(start as int, end as int),
{
    String::from_str(text.substring_char(start, end))
}

/// The pieces of `text` at `spans`.
fn texts_at(text: &str, spans: &Vec<(usize, usize)>, Ghost(fs): Ghost<Seq<Seq<char>>>) -> (r: Vec<String>)
    requires
        spans_denote(text@, spans@, fs),
    ensures
        r.deep_view() == fs,
{
    let mut r: Vec<String> = Vec::new();
    let mut k: usize = 0;
    while k < spans.len()
        invariant
            spans_denote(text@, spans@, fs),
            k <= spans.len(),
            r.deep_view() == fs.take(k as int),
        decreases spans.len() - k,
    {
        let (a, b) = spans[k];
        assert(spans@[k as int].0 <= spans@[k as int].1 <= text@.len());
        let t = text_of(text, a, b);
        let ghost prev = r.deep_view();
        let ghost tv = t@;
        r.push(t);
        assert(r.deep_view() =~= prev.push(tv));
        assert(prev.push(tv) =~= fs.take(k + 1));
        k = k + 1;
    }
    assert(fs.take(spans.len() as int) =~= fs);
    r
}

/// The whitespace-separated words of `text`, as `str::split_whitespace`
/// yields them.
pub fn split_words(text: &str) -> (r: Vec<String>)
    ensures
        r.deep_view() == words(text@),
{
    let v = chars_of(text);
    let spans = word_spans(&v);
    texts_at(text, &spans, Ghost(words(text@)))
}

/// The lines of `text`, as `str::lines` yields them.
pub fn split_lines(text: &str) -> (r: Vec<String>)
    ensures
        r.deep_view() == lines(text@),
{
    let v = chars_of(text);
    let spans = line_spans(&v);
    texts_at(text, &spans, Ghost(lines(text@)))
}

} // verus!
