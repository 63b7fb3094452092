//! The changes of a closure diff, sorted into categories.

use vstd::prelude::*;
use vstd::string::*;

use super::package::{
    classify, describe_line, option_text, PackageChange, PackageChangeType, PackageChangeView,
};

verus! {

/// The views of a sequence of changes.
pub open spec fn views(s: Seq<PackageChange>) -> Seq<PackageChangeView> {
    s.map_values(|p: PackageChange| p@)
}

/// The predicate "falls in category `t`".
pub open spec fn has_type(t: PackageChangeType) -> spec_fn(PackageChangeView) -> bool {
    |v: PackageChangeView| classify(v) == t
}

/// The changes of `s` that fall in category `t`, in their order in `s`.
pub open spec fn of_type(s: Seq<PackageChangeView>, t: PackageChangeType) -> Seq<PackageChangeView> {
    s.filter(has_type(t))
}

/// The category shown on tab `tab` (0 to 5).
pub open spec fn tab_type(tab: int) -> PackageChangeType {
    if tab == 0 {
        PackageChangeType::Kernel
    } else if tab == 1 {
        PackageChangeType::Updated
    } else if tab == 2 {
        PackageChangeType::Removed
    } else if tab == 3 {
        PackageChangeType::Added
    } else if tab == 4 {
        PackageChangeType::Rebuilt
    } else {
        PackageChangeType::Other
    }
}

/// The heading of the section of tab `tab` in the summary.
pub open spec fn tab_title(tab: int) -> Seq<char> {
    if tab == 0 {
        "[Kernel Updates]"@
    } else if tab == 1 {
        "[Updated Packages]"@
    } else if tab == 2 {
        "[Removed Packages]"@
    } else if tab == 3 {
        "[Added Packages]"@
    } else if tab == 4 {
        "[Rebuilt Packages]"@
    } else {
        "[Other Changes]"@
    }
}

/// One line per change, each change shown with its size text.
pub open spec fn listed_lines(ps: Seq<PackageChangeView>, sizes: Seq<Option<Seq<char>>>) -> Seq<char>
    decreases ps.len(),
{
    if ps.len() == 0 {
        seq![]
    } else {
        listed_lines(ps.drop_last(), sizes.drop_last()) + describe_line(ps.last(), sizes.last())
            + "\n"@
    }
}

/// A section of the summary: nothing for an empty list, else the heading,
/// the lines, and a blank line.
pub open spec fn section_text(title: Seq<char>, ps: Seq<PackageChangeView>, sizes: Seq<Option<Seq<char>>>) -> Seq<char> {
    if ps.len() == 0 {
        seq![]
    } else {
        title + "\n"@ + listed_lines(ps, sizes) + "\n\n"@
    }
}

/// The changes of a diff, one list per category.
#[derive(Debug)]
pub struct PackageChanges {
    pub kernel: Vec<PackageChange>,
    pub updated: Vec<PackageChange>,
    pub removed: Vec<PackageChange>,
    pub added: Vec<PackageChange>,
    pub rebuilt: Vec<PackageChange>,
    pub other: Vec<PackageChange>,
}

impl Default for PackageChanges {
    /// No changes in any category.
    fn default() -> (r: PackageChanges)
        ensures
            forall|t: PackageChangeType| r.list(t).len() == 0,
    {
        PackageChanges {
            kernel: Vec::new(),
            updated: Vec::new(),
            removed: Vec::new(),
            added: Vec::new(),
            rebuilt: Vec::new(),
            other: Vec::new(),
        }
    }
}

/// `needle` occurs in `hay` as one unbroken piece.
pub open spec fn occurs_in(needle: Seq<char>, hay: Seq<char>) -> bool {
    exists|j: int|
        0 <= j && j + needle.len() <= hay.len() && #[trigger] hay.subrange(j, j + needle.len())
            == needle
}

proof fn lemma_occurs_self(x: Seq<char>)
    ensures
        occurs_in(x, x),
{
    let j: int = 0;
    assert(x.subrange(j, j + x.len()) =~= x);
}

proof fn lemma_occurs_left(x: Seq<char>, a: Seq<char>, b: Seq<char>)
    requires
        occurs_in(x, a),
    ensures
        occurs_in(x, a + b),
{
    let j = choose|j: int|
        0 <= j && j + x.len() <= a.len() && #[trigger] a.subrange(j, j + x.len()) == x;
    assert((a + b).subrange(j, j + x.len()) =~= a.subrange(j, j + x.len()));
}

proof fn lemma_occurs_right(x: Seq<char>, a: Seq<char>, b: Seq<char>)
    requires
        occurs_in(x, b),
    ensures
        occurs_in(x, a + b),
{
    let j = choose|j: int|
        0 <= j && j + x.len() <= b.len() && #[trigger] b.subrange(j, j + x.len()) == x;
    assert((a + b).subrange(a.len() + j, a.len() + j + x.len()) =~= b.subrange(j, j + x.len()));
}

proof fn lemma_listed_lines_hold(ps: Seq<PackageChangeView>, ss: Seq<Option<Seq<char>>>, i: int)
    requires
        ss.len() == ps.len(),
        0 <= i < ps.len(),
    ensures
        occurs_in(describe_line(ps[i], ss[i]), listed_lines(ps, ss)),
    decreases ps.len(),
{
    let init = listed_lines(ps.drop_last(), ss.drop_last());
    let d = describe_line(ps.last(), ss.last());
    let x = describe_line(ps[i], ss[i]);
    assert(listed_lines(ps, ss) == init + d + "\n"@);
    if i == ps.len() - 1 {
        lemma_occurs_self(d);
        lemma_occurs_right(d, init, d);
    } else {
        lemma_listed_lines_hold(ps.drop_last(), ss.drop_last(), i);
        assert(ps.drop_last()[i] == ps[i] && ss.drop_last()[i] == ss[i]);
        lemma_occurs_left(x, init, d);
    }
    lemma_occurs_left(x, init + d, "\n"@);
}

proof fn lemma_section_holds(title: Seq<char>, ps: Seq<PackageChangeView>, ss: Seq<Option<Seq<char>>>, i: int)
    requires
        ss.len() == ps.len(),
        0 <= i < ps.len(),
    ensures
        occurs_in(title, section_text(title, ps, ss)),
        occurs_in(describe_line(ps[i], ss[i]), section_text(title, ps, ss)),
{
    let l = listed_lines(ps, ss);
    let x = describe_line(ps[i], ss[i]);
    lemma_occurs_self(title);
    lemma_occurs_left(title, title, "\n"@);
    lemma_occurs_left(title, title + "\n"@, l);
    lemma_occurs_left(title, title + "\n"@ + l, "\n\n"@);
    lemma_listed_lines_hold(ps, ss, i);
    lemma_occurs_right(x, title + "\n"@, l);
    lemma_occurs_left(x, title + "\n"@ + l, "\n\n"@);
}

proof fn lemma_in_summary(c: PackageChanges, sizes: Seq<Seq<Option<Seq<char>>>>, k: int, x: Seq<char>)
    requires
        0 <= k < 6,
        occurs_in(x, section_text(tab_title(k), c.list(tab_type(k)), sizes[k])),
    ensures
        occurs_in(x, c.summary_text(sizes)),
{
    if k == 0 {
        let pre = "--- Package Update Summary ---\n"@;
        lemma_occurs_right(x, pre, section_text(tab_title(0), c.list(tab_type(0)), sizes[0]));
        lemma_occurs_left(x, pre + section_text(tab_title(0), c.list(tab_type(0)), sizes[0]), section_text(tab_title(1), c.list(tab_type(1)), sizes[1]));
        lemma_occurs_left(x, pre + section_text(tab_title(0), c.list(tab_type(0)), sizes[0]) + section_text(tab_title(1), c.list(tab_type(1)), sizes[1]), section_text(tab_title(2), c.list(tab_type(2)), sizes[2]));
        lemma_occurs_left(x, pre + section_text(tab_title(0), c.list(tab_type(0)), sizes[0]) + section_text(tab_title(1), c.list(tab_type(1)), sizes[1]) + section_text(tab_title(2), c.list(tab_type(2)), sizes[2]), section_text(tab_title(3), c.list(tab_type(3)), sizes[3]));
        lemma_occurs_left(x, pre + section_text(tab_title(0), c.list(tab_type(0)), sizes[0]) + section_text(tab_title(1), c.list(tab_type(1)), sizes[1]) + section_text(tab_title(2), c.list(tab_type(2)), sizes[2]) + section_text(tab_title(3), c.list(tab_type(3)), sizes[3]), section_text(tab_title(4), c.list(tab_type(4)), sizes[4]));
        lemma_occurs_left(x, pre + section_text(tab_title(0), c.list(tab_type(0)), sizes[0]) + section_text(tab_title(1), c.list(tab_type(1)), sizes[1]) + section_text(tab_title(2), c.list(tab_type(2)), sizes[2]) + section_text(tab_title(3), c.list(tab_type(3)), sizes[3]) + section_text(tab_title(4), c.list(tab_type(4)), sizes[4]), section_text(tab_title(5), c.list(tab_type(5)), sizes[5]));
    }
    if k == 1 {
        let pre = "--- Package Update Summary ---\n"@ + section_text(tab_title(0), c.list(tab_type(0)), sizes[0]);
        lemma_occurs_right(x, pre, section_text(tab_title(1), c.list(tab_type(1)), sizes[1]));
        lemma_occurs_left(x, pre + section_text(tab_title(1), c.list(tab_type(1)), sizes[1]), section_text(tab_title(2), c.list(tab_type(2)), sizes[2]));
        lemma_occurs_left(x, pre + section_text(tab_title(1), c.list(tab_type(1)), sizes[1]) + section_text(tab_title(2), c.list(tab_type(2)), sizes[2]), section_text(tab_title(3), c.list(tab_type(3)), sizes[3]));
        lemma_occurs_left(x, pre + section_text(tab_title(1), c.list(tab_type(1)), sizes[1]) + section_text(tab_title(2), c.list(tab_type(2)), sizes[2]) + section_text(tab_title(3), c.list(tab_type(3)), sizes[3]), section_text(tab_title(4), c.list(tab_type(4)), sizes[4]));
        lemma_occurs_left(x, pre + section_text(tab_title(1), c.list(tab_type(1)), sizes[1]) + section_text(tab_title(2), c.list(tab_type(2)), sizes[2]) + section_text(tab_title(3), c.list(tab_type(3)), sizes[3]) + section_text(tab_title(4), c.list(tab_type(4)), sizes[4]), section_text(tab_title(5), c.list(tab_type(5)), sizes[5]));
    }
    if k == 2 {
        let pre = "--- Package Update Summary ---\n"@ + section_text(tab_title(0), c.list(tab_type(0)), sizes[0]) + section_text(tab_title(1), c.list(tab_type(1)), sizes[1]);
        lemma_occurs_right(x, pre, section_text(tab_title(2), c.list(tab_type(2)), sizes[2]));
        lemma_occurs_left(x, pre + section_text(tab_title(2), c.list(tab_type(2)), sizes[2]), section_text(tab_title(3), c.list(tab_type(3)), sizes[3]));
        lemma_occurs_left(x, pre + section_text(tab_title(2), c.list(tab_type(2)), sizes[2]) + section_text(tab_title(3), c.list(tab_type(3)), sizes[3]), section_text(tab_title(4), c.list(tab_type(4)), sizes[4]));
        lemma_occurs_left(x, pre + section_text(tab_title(2), c.list(tab_type(2)), sizes[2]) + section_text(tab_title(3), c.list(tab_type(3)), sizes[3]) + section_text(tab_title(4), c.list(tab_type(4)), sizes[4]), section_text(tab_title(5), c.list(tab_type(5)), sizes[5]));
    }
    if k == 3 {
        let pre = "--- Package Update Summary ---\n"@ + section_text(tab_title(0), c.list(tab_type(0)), sizes[0]) + section_text(tab_title(1), c.list(tab_type(1)), sizes[1]) + section_text(tab_title(2), c.list(tab_type(2)), sizes[2]);
        lemma_occurs_right(x, pre, section_text(tab_title(3), c.list(tab_type(3)), sizes[3]));
        lemma_occurs_left(x, pre + section_text(tab_title(3), c.list(tab_type(3)), sizes[3]), section_text(tab_title(4), c.list(tab_type(4)), sizes[4]));
        lemma_occurs_left(x, pre + section_text(tab_title(3), c.list(tab_type(3)), sizes[3]) + section_text(tab_title(4), c.list(tab_type(4)), sizes[4]), section_text(tab_title(5), c.list(tab_type(5)), sizes[5]));
    }
    if k == 4 {
        let pre = "--- Package Update Summary ---\n"@ + section_text(tab_title(0), c.list(tab_type(0)), sizes[0]) + section_text(tab_title(1), c.list(tab_type(1)), sizes[1]) + section_text(tab_title(2), c.list(tab_type(2)), sizes[2]) + section_text(tab_title(3), c.list(tab_type(3)), sizes[3]);
        lemma_occurs_right(x, pre, section_text(tab_title(4), c.list(tab_type(4)), sizes[4]));
        lemma_occurs_left(x, pre + section_text(tab_title(4), c.list(tab_type(4)), sizes[4]), section_text(tab_title(5), c.list(tab_type(5)), sizes[5]));
    }
    if k == 5 {
        let pre = "--- Package Update Summary ---\n"@ + section_text(tab_title(0), c.list(tab_type(0)), sizes[0]) + section_text(tab_title(1), c.list(tab_type(1)), sizes[1]) + section_text(tab_title(2), c.list(tab_type(2)), sizes[2]) + section_text(tab_title(3), c.list(tab_type(3)), sizes[3]) + section_text(tab_title(4), c.list(tab_type(4)), sizes[4]);
        lemma_occurs_right(x, pre, section_text(tab_title(5), c.list(tab_type(5)), sizes[5]));
    }
}

/// The summary lists every change: for each category that has changes, its
/// heading and the line of each of its changes occur in the summary.
pub proof fn lemma_summary_lists_every_change(c: PackageChanges, sizes: Seq<Seq<Option<Seq<char>>>>, k: int, i: int)
    requires
        sizes.len() == 6,
        forall|kk: int| 0 <= kk < 6 ==> #[trigger] sizes[kk].len() == c.list(tab_type(kk)).len(),
        0 <= k < 6,
        0 <= i < c.list(tab_type(k)).len(),
    ensures
        occurs_in(tab_title(k), c.summary_text(sizes)),
        occurs_in(describe_line(c.list(tab_type(k))[i], sizes[k][i]), c.summary_text(sizes)),
{
    assert(sizes[k].len() == c.list(tab_type(k)).len());
    lemma_section_holds(tab_title(k), c.list(tab_type(k)), sizes[k], i);
    lemma_in_summary(c, sizes, k, tab_title(k));
    lemma_in_summary(c, sizes, k, describe_line(c.list(tab_type(k))[i], sizes[k][i]));
}

/// Appends the section titled `title` that lists `ps` with sizes `sizes`.
fn push_section(out: &mut String, title: &str, ps: &Vec<PackageChange>, sizes: &Vec<Option<String>>)
    requires
        sizes.len() == ps.len(),
    ensures
        final(out)@ == old(out)@ + section_text(title@, views(ps@), sizes.deep_view()),
{
    if ps.len() == 0 {
        return;
    }
    let ghost start = out@;
    let ghost pv = views(ps@);
    let ghost sv = sizes.deep_view();
    out.append(title);
    out.append("\n");
    let ghost head = out@;
    let mut i: usize = 0;
    while i < ps.len()
        invariant
            i <= ps.len() == sizes.len(),
            pv == views(ps@),
            sv == sizes.deep_view(),
            out@ == head + listed_lines(pv.take(i as int), sv.take(i as int)),
        decreases ps.len() - i,
    {
        let shown: Option<&str> = match &sizes[i] {
            Some(t) => Some(t.as_str()),
            None => None,
        };
        assert(option_text(shown) == sv[i as int]);
        let line = ps[i].describe(shown);
        out.append(line.as_str());
        out.append("\n");
        assert(pv.take(i + 1).drop_last() =~= pv.take(i as int));
        assert(sv.take(i + 1).drop_last() =~= sv.take(i as int));
        i = i + 1;
    }
    assert(pv.take(ps.len() as int) =~= pv);
    assert(sv.take(ps.len() as int) =~= sv);
    out.append("\n\n");
}

proof fn lemma_of_type_push(s: Seq<PackageChangeView>, x: PackageChangeView)
    ensures
        forall|t: PackageChangeType|
            #[trigger] of_type(s.push(x), t) == if classify(x) == t {
                of_type(s, t).push(x)
            } else {
                of_type(s, t)
            },
{
    assert forall|t: PackageChangeType|
        #[trigger] of_type(s.push(x), t) == if classify(x) == t {
            of_type(s, t).push(x)
        } else {
            of_type(s, t)
        } by {
        s.lemma_filter_push(x, has_type(t));
    }
}

/// Sorting into categories partitions the changes: the six lists are as
/// long as the input together, each lists only changes of its category, and
/// each change is listed under its own category.
pub proof fn lemma_categories_partition(s: Seq<PackageChangeView>)
    ensures
        of_type(s, PackageChangeType::Kernel).len() + of_type(s, PackageChangeType::Updated).len()
            + of_type(s, PackageChangeType::Removed).len() + of_type(s, PackageChangeType::Added).len()
            + of_type(s, PackageChangeType::Rebuilt).len() + of_type(s, PackageChangeType::Other).len()
            == s.len(),
        forall|t: PackageChangeType, i: int|
            0 <= i < of_type(s, t).len() ==> classify(#[trigger] of_type(s, t)[i]) == t,
        forall|i: int| 0 <= i < s.len() ==> of_type(s, classify(s[i])).contains(#[trigger] s[i]),
    decreases s.len(),
{
    if s.len() > 0 {
        let init = s.drop_last();
        lemma_categories_partition(init);
        lemma_of_type_push(init, s.last());
        assert(init.push(s.last()) =~= s);
    }
    assert forall|t: PackageChangeType, i: int|
        0 <= i < of_type(s, t).len() implies classify(#[trigger] of_type(s, t)[i]) == t by {
        s.lemma_filter_pred(has_type(t), i);
    }
    assert forall|i: int| 0 <= i < s.len() implies of_type(s, classify(s[i])).contains(
        #[trigger] s[i],
    ) by {
        s.lemma_filter_contains(has_type(classify(s[i])), i);
    }
}

impl PackageChanges {
    /// The changes listed under category `t`.
    pub open spec fn list(&self, t: PackageChangeType) -> Seq<PackageChangeView> {
        match t {
            PackageChangeType::Kernel => views(self.kernel@),
            PackageChangeType::Updated => views(self.updated@),
            PackageChangeType::Removed => views(self.removed@),
            PackageChangeType::Added => views(self.added@),
            PackageChangeType::Rebuilt => views(self.rebuilt@),
            PackageChangeType::Other => views(self.other@),
        }
    }

    /// The summary of all changes: a heading, then a section per non-empty
    /// category in tab order. `sizes[k][i]` is the size shown for the `i`-th
    /// change of tab `k`.
    pub open spec fn summary_text(&self, sizes: Seq<Seq<Option<Seq<char>>>>) -> Seq<char> {
        "--- Package Update Summary ---\n"@
            + section_text(tab_title(0), self.list(tab_type(0)), sizes[0])
            + section_text(tab_title(1), self.list(tab_type(1)), sizes[1])
            + section_text(tab_title(2), self.list(tab_type(2)), sizes[2])
            + section_text(tab_title(3), self.list(tab_type(3)), sizes[3])
            + section_text(tab_title(4), self.list(tab_type(4)), sizes[4])
            + section_text(tab_title(5), self.list(tab_type(5)), sizes[5])
    }

    /// The list shown on tab `tab`.
    pub fn category(&self, tab: usize) -> (r: &Vec<PackageChange>)
        requires
            tab < 6,
        ensures
            views(r@) == self.list(tab_type(tab as int)),
    {
        if tab == 0 {
            &self.kernel
        } else if tab == 1 {
            &self.updated
        } else if tab == 2 {
            &self.removed
        } else if tab == 3 {
            &self.added
        } else if tab == 4 {
            &self.rebuilt
        } else {
            &self.other
        }
    }

    /// The text summary of all changes; `sizes[k][i]` is the size text shown
    /// for the `i`-th change of tab `k` (`None` where none is shown).
    pub fn summary(&self, sizes: &Vec<Vec<Option<String>>>) -> (r: String)
        requires
            sizes.len() == 6,
            forall|k: int| 0 <= k < 6 ==> #[trigger] sizes@[k].len() == self.list(tab_type(k)).len(),
        ensures
            r@ == self.summary_text(sizes.deep_view()),
    {
        let mut out = String::from_str("--- Package Update Summary ---\n");
        let ghost ds = sizes.deep_view();
        push_section(&mut out, "[Kernel Updates]", &self.kernel, &sizes[0]);
        push_section(&mut out, "[Updated Packages]", &self.updated, &sizes[1]);
        push_section(&mut out, "[Removed Packages]", &self.removed, &sizes[2]);
        push_section(&mut out, "[Added Packages]", &self.added, &sizes[3]);
        push_section(&mut out, "[Rebuilt Packages]", &self.rebuilt, &sizes[4]);
        push_section(&mut out, "[Other Changes]", &self.other, &sizes[5]);
        proof {
            assert(ds[0] == sizes@[0].deep_view());
            assert(ds[1] == sizes@[1].deep_view());
            assert(ds[2] == sizes@[2].deep_view());
            assert(ds[3] == sizes@[3].deep_view());
            assert(ds[4] == sizes@[4].deep_view());
            assert(ds[5] == sizes@[5].deep_view());
        }
        out
    }

    /// Sorts `packages` into categories: each category lists the packages of
    /// that category, in their order in `packages`.
    pub fn from_packages(packages: Vec<PackageChange>) -> (r: Self)
        ensures
            forall|t: PackageChangeType| #[trigger] r.list(t) == of_type(views(packages@), t),
    {
        let ghost all = packages@;
        let mut changes = Self::default();
        let ghost mut seen: Seq<PackageChangeView> = seq![];
        for package in it: packages
            invariant
                it.seq() == all,
                seen == views(all.take(it.index() as int)),
                forall|t: PackageChangeType| #[trigger] changes.list(t) == of_type(seen, t),
        {
            let ghost pv = package@;
            let ghost before = changes.list(classify(pv));
            let ghost prev_seen = seen;
            let ghost prev = changes;
            proof {
                lemma_of_type_push(seen, pv);
                assert(views(all.take(it.index() + 1)) =~= seen.push(pv));
            }
            let kind = package.classify_package();
            match kind {
                PackageChangeType::Kernel => changes.kernel.push(package),
                PackageChangeType::Updated => changes.updated.push(package),
                PackageChangeType::Removed => changes.removed.push(package),
                PackageChangeType::Added => changes.added.push(package),
                PackageChangeType::Rebuilt => changes.rebuilt.push(package),
                PackageChangeType::Other => changes.other.push(package),
            }
            proof {
                assert(changes.list(kind) =~= before.push(pv));
                seen = seen.push(pv);
                assert forall|t: PackageChangeType| #[trigger] changes.list(t) == of_type(seen, t) by {
                    if t != kind {
                        assert(changes.list(t) == prev.list(t));
                        assert(prev.list(t) == of_type(prev_seen, t));
                    }
                }
            }
        }
        assert(all.take(all.len() as int) =~= all);
        changes
    }
}

} // verus!
