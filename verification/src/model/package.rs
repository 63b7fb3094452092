//! One package change of a closure diff, and the category it falls in.

use vstd::prelude::*;
use vstd::string::*;

use crate::text::{join, push_joined, same_text};

verus! {

/// The category a package change is listed under.
#[derive(Clone, Copy, Debug, PartialEq, Eq, Structural)]
pub enum PackageChangeType {
    Kernel,
    Updated,
    Removed,
    Added,
    Rebuilt,
    Other,
}

/// A change in closure size, as `nix store diff-closures` prints it: a
/// number (the text of an `f64`, such as `-188.0`) and a unit (`KiB`, ...).
#[derive(Debug)]
pub struct Size {
    pub delta: String,
    pub unit: String,
}

pub struct SizeView {
    pub delta: Seq<char>,
    pub unit: Seq<char>,
}

impl View for Size {
    type V = SizeView;

    open spec fn view(&self) -> SizeView {
        SizeView { delta: self.delta@, unit: self.unit@ }
    }
}

impl Default for Size {
    /// A size change of zero with no unit.
    fn default() -> (r: Size)
        ensures
            r.delta@ == "0"@,
            r.unit@ == Seq::<char>::empty(),
    {
        Size { delta: String::from_str("0"), unit: String::new() }
    }
}

/// One line of a closure diff: a package, the versions it had and has, and
/// the change in its size.
#[derive(Debug)]
pub struct PackageChange {
    pub pkg_name: String,
    pub old_ver: Vec<String>,
    pub new_ver: Vec<String>,
    pub size_delta: Option<Size>,
}

pub struct PackageChangeView {
    pub pkg_name: Seq<char>,
    pub old_ver: Seq<Seq<char>>,
    pub new_ver: Seq<Seq<char>>,
    pub size_delta: Option<SizeView>,
}

impl View for PackageChange {
    type V = PackageChangeView;

    open spec fn view(&self) -> PackageChangeView {
        PackageChangeView {
            pkg_name: self.pkg_name@,
            old_ver: self.old_ver.deep_view(),
            new_ver: self.new_ver.deep_view(),
            size_delta: match self.size_delta {
                Some(s) => Some(s@),
                None => None,
            },
        }
    }
}

/// The package names that count as kernel packages.
pub open spec fn is_kernel_name(name: Seq<char>) -> bool {
    ||| name == "linux"@
    ||| name == "linux-zen"@
    ||| name == "linux-headers"@
    ||| name == "linux-headers-static"@
    ||| name == "initrd-linux-zen"@
    ||| name == "linux-firmware"@
}

/// Whether `name` is one of the kernel packages.
pub fn is_kernel_package(name: &str) -> (r: bool)
    ensures
        r == is_kernel_name(name@),
{
    same_text(name, "linux") || same_text(name, "linux-zen") || same_text(name, "linux-headers")
        || same_text(name, "linux-headers-static") || same_text(name, "initrd-linux-zen")
        || same_text(name, "linux-firmware")
}

/// The category of a change: kernel packages first, then by which of the old
/// and new versions are present, then by whether the size changed.
pub open spec fn classify(p: PackageChangeView) -> PackageChangeType {
    if is_kernel_name(p.pkg_name) {
        PackageChangeType::Kernel
    } else if p.old_ver.len() > 0 && p.new_ver.len() > 0 {
        PackageChangeType::Updated
    } else if p.old_ver.len() > 0 {
        PackageChangeType::Removed
    } else if p.new_ver.len() > 0 {
        PackageChangeType::Added
    } else if p.size_delta is Some {
        PackageChangeType::Rebuilt
    } else {
        PackageChangeType::Other
    }
}

/// How a change is classified, by its fields: kernel packages whatever their
/// versions; otherwise old and new versions make an update, only old ones a
/// removal, only new ones an addition; only a change with no versions at all
/// is a rebuild (with a size) or other (without).
pub proof fn lemma_classify_by_fields(p: PackageChangeView)
    ensures
        is_kernel_name(p.pkg_name) ==> classify(p) == PackageChangeType::Kernel,
        !is_kernel_name(p.pkg_name) && p.old_ver.len() > 0 && p.new_ver.len() > 0 ==> classify(p)
            == PackageChangeType::Updated,
        !is_kernel_name(p.pkg_name) && p.old_ver.len() > 0 && p.new_ver.len() == 0 ==> classify(p)
            == PackageChangeType::Removed,
        !is_kernel_name(p.pkg_name) && p.old_ver.len() == 0 && p.new_ver.len() > 0 ==> classify(p)
            == PackageChangeType::Added,
        !is_kernel_name(p.pkg_name) && p.old_ver.len() == 0 && p.new_ver.len() == 0 ==> (classify(p)
            == PackageChangeType::Rebuilt <==> p.size_delta is Some),
        !is_kernel_name(p.pkg_name) && p.old_ver.len() == 0 && p.new_ver.len() == 0 ==> (classify(p)
            == PackageChangeType::Other <==> p.size_delta is None),
{
}

/// The size matters to the category only when there are no versions: two
/// changes that differ only in their size are classified alike when either
/// version list is non-empty.
pub proof fn lemma_size_matters_only_without_versions(p: PackageChangeView, q: PackageChangeView)
    requires
        p.pkg_name == q.pkg_name,
        p.old_ver == q.old_ver,
        p.new_ver == q.new_ver,
        p.old_ver.len() > 0 || p.new_ver.len() > 0,
    ensures
        classify(p) == classify(q),
{
}

/// The one-line description of a change, given the size change as it is shown
/// (`None` where there is none to show): the name, then `: old`, then
/// `: new` or ` -> new`, each list joined by `, `, then the size.
pub open spec fn describe_line(p: PackageChangeView, shown_size: Option<Seq<char>>) -> Seq<char> {
    let no_versions = p.old_ver.len() == 0 && p.new_ver.len() == 0;
    let olds = if p.old_ver.len() > 0 {
        ": "@ + join(p.old_ver, ", "@)
    } else {
        seq![]
    };
    let news = if p.new_ver.len() > 0 {
        (if p.old_ver.len() == 0 {
            ": "@
        } else {
            " -> "@
        }) + join(p.new_ver, ", "@)
    } else {
        seq![]
    };
    let bare = if no_versions {
        ": "@
    } else {
        seq![]
    };
    let size = match shown_size {
        Some(t) => if no_versions {
            t
        } else {
            ", "@ + t
        },
        None => seq![],
    };
    p.pkg_name + olds + news + bare + size
}

pub open spec fn option_text(s: Option<&str>) -> Option<Seq<char>> {
    match s {
        Some(t) => Some(t@),
        None => None,
    }
}

/// A shown size always appears at the end of the line: after `, ` when the
/// change has versions, right after the name's `: ` when it has none; and
/// the line starts with the name.
pub proof fn lemma_shown_size_ends_the_line(p: PackageChangeView, t: Seq<char>)
    ensures
        p.old_ver.len() > 0 || p.new_ver.len() > 0 ==> describe_line(p, Some(t)) == describe_line(
            p,
            None,
        ) + ", "@ + t,
        p.old_ver.len() == 0 && p.new_ver.len() == 0 ==> describe_line(p, Some(t)) == describe_line(
            p,
            None,
        ) + t,
        describe_line(p, Some(t)).subrange(0, p.pkg_name.len() as int) == p.pkg_name,
        describe_line(p, None).subrange(0, p.pkg_name.len() as int) == p.pkg_name,
{
    let no_versions = p.old_ver.len() == 0 && p.new_ver.len() == 0;
    let olds = if p.old_ver.len() > 0 {
        ": "@ + join(p.old_ver, ", "@)
    } else {
        seq![]
    };
    let news = if p.new_ver.len() > 0 {
        (if p.old_ver.len() == 0 {
            ": "@
        } else {
            " -> "@
        }) + join(p.new_ver, ", "@)
    } else {
        seq![]
    };
    let bare = if no_versions {
        ": "@
    } else {
        seq![]
    };
    let base = p.pkg_name + olds + news + bare;
    assert(describe_line(p, None) =~= base);
    if no_versions {
        assert(describe_line(p, Some(t)) =~= base + t);
    } else {
        assert(describe_line(p, Some(t)) =~= base + (", "@ + t));
        assert(base + (", "@ + t) =~= base + ", "@ + t);
    }
    assert(describe_line(p, Some(t)).subrange(0, p.pkg_name.len() as int) =~= p.pkg_name);
    assert(base.subrange(0, p.pkg_name.len() as int) =~= p.pkg_name);
}

impl PackageChange {
    /// The category this change is listed under.
    pub fn classify_package(&self) -> (r: PackageChangeType)
        ensures
            r == classify(self@),
    {
        if is_kernel_package(self.pkg_name.as_str()) {
            PackageChangeType::Kernel
        } else if self.old_ver.len() != 0 && self.new_ver.len() != 0 {
            PackageChangeType::Updated
        } else if self.old_ver.len() != 0 {
            PackageChangeType::Removed
        } else if self.new_ver.len() != 0 {
            PackageChangeType::Added
        } else if self.size_delta.is_some() {
            PackageChangeType::Rebuilt
        } else {
            PackageChangeType::Other
        }
    }

    /// The line that shows this change. `shown_size` is the size change as
    /// it is printed (number then unit), or `None` where the change has no
    /// size or its size is zero.
    pub fn describe(&self, shown_size: Option<&str>) -> (r: String)
        ensures
            r@ == describe_line(self@, option_text(shown_size)),
    {
        let mut out = String::from_str(self.pkg_name.as_str());
        if self.old_ver.len() != 0 {
            out.append(": ");
            push_joined(&mut out, &self.old_ver, ", ");
        }
        if self.new_ver.len() != 0 {
            if self.old_ver.len() == 0 {
                out.append(": ");
            } else {
                out.append(" -> ");
            }
            push_joined(&mut out, &self.new_ver, ", ");
        }
        if self.old_ver.len() == 0 && self.new_ver.len() == 0 {
            out.append(": ");
        }
        if let Some(t) = shown_size {
            if self.old_ver.len() == 0 && self.new_ver.len() == 0 {
                out.append(t);
            } else {
                out.append(", ");
                out.append(t);
            }
        }
        out
    }
}

} // verus!
