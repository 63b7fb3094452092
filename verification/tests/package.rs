use nixos_gen_diff::model::changes::PackageChanges;
use nixos_gen_diff::model::package::{is_kernel_package, PackageChange, PackageChangeType, Size};

fn change(name: &str, old: &[&str], new: &[&str], size: Option<(&str, &str)>) -> PackageChange {
    PackageChange {
        pkg_name: name.to_string(),
        old_ver: old.iter().map(|s| s.to_string()).collect(),
        new_ver: new.iter().map(|s| s.to_string()).collect(),
        size_delta: size.map(|(d, u)| Size { delta: d.to_string(), unit: u.to_string() }),
    }
}

fn kind(p: &PackageChange) -> &'static str {
    match p.classify_package() {
        PackageChangeType::Kernel => "kernel",
        PackageChangeType::Updated => "updated",
        PackageChangeType::Removed => "removed",
        PackageChangeType::Added => "added",
        PackageChangeType::Rebuilt => "rebuilt",
        PackageChangeType::Other => "other",
    }
}

#[test]
fn kernel_names() {
    for name in ["linux", "linux-zen", "linux-headers", "linux-headers-static", "initrd-linux-zen", "linux-firmware"] {
        assert!(is_kernel_package(name), "{}", name);
    }
    for name in ["linux-lts", "Linux", "", "firefox", "linux "] {
        assert!(!is_kernel_package(name), "{}", name);
    }
}

#[test]
fn classification_order() {
    assert_eq!(kind(&change("linux", &["6.1"], &["6.2"], None)), "kernel");
    assert_eq!(kind(&change("linux-firmware", &[], &[], None)), "kernel");
    assert_eq!(kind(&change("a", &["1"], &["2"], Some(("1.0", "KiB")))), "updated");
    assert_eq!(kind(&change("a", &["1"], &[], None)), "removed");
    assert_eq!(kind(&change("a", &[], &["2"], None)), "added");
    assert_eq!(kind(&change("a", &[], &[], Some(("2.8", "MiB")))), "rebuilt");
    assert_eq!(kind(&change("a", &[], &[], None)), "other");
}

#[test]
fn describe_lines() {
    let p = change("thing", &["0.1"], &["0.2"], Some(("245.0", "KiB")));
    assert_eq!(p.describe(Some("245KiB")), "thing: 0.1 -> 0.2, 245KiB");
    let p = change("bottles", &["65.4", "65.4-fhsenv"], &["64.1", "64.1-fhsenv"], None);
    assert_eq!(p.describe(None), "bottles: 65.4, 65.4-fhsenv -> 64.1, 64.1-fhsenv");
    let p = change("foo", &[], &["1.0"], Some(("12.5", "KiB")));
    assert_eq!(p.describe(Some("12.5KiB")), "foo: 1.0, 12.5KiB");
    let p = change("bar", &["2.3"], &[], None);
    assert_eq!(p.describe(None), "bar: 2.3");
    let p = change("7zz", &[], &[], Some(("2.8", "MiB")));
    assert_eq!(p.describe(Some("2.8MiB")), "7zz: 2.8MiB");
    let p = change("x", &[], &[], None);
    assert_eq!(p.describe(None), "x: ");
}

#[test]
fn default_size_is_zero() {
    let s = Size::default();
    assert_eq!(s.delta, "0");
    assert_eq!(s.unit, "");
    assert_eq!(s.delta.parse::<f64>().unwrap(), 0.0);
}

#[test]
fn sorting_keeps_order_and_every_change() {
    let packages = vec![
        change("a", &["1"], &["2"], None),
        change("linux", &["6.1"], &["6.2"], None),
        change("b", &[], &["1"], None),
        change("c", &["1"], &["3"], None),
        change("d", &[], &[], Some(("1.0", "KiB"))),
        change("e", &[], &[], None),
        change("f", &["9"], &[], None),
    ];
    let c = PackageChanges::from_packages(packages);
    let names = |v: &Vec<PackageChange>| v.iter().map(|p| p.pkg_name.clone()).collect::<Vec<_>>();
    assert_eq!(names(&c.kernel), vec!["linux"]);
    assert_eq!(names(&c.updated), vec!["a", "c"]);
    assert_eq!(names(&c.removed), vec!["f"]);
    assert_eq!(names(&c.added), vec!["b"]);
    assert_eq!(names(&c.rebuilt), vec!["d"]);
    assert_eq!(names(&c.other), vec!["e"]);
    let total = c.kernel.len() + c.updated.len() + c.removed.len() + c.added.len() + c.rebuilt.len() + c.other.len();
    assert_eq!(total, 7);
    assert_eq!(names(c.category(1)), vec!["a", "c"]);
    assert_eq!(names(c.category(5)), vec!["e"]);
}

#[test]
fn empty_default_changes() {
    let c = PackageChanges::default();
    for tab in 0..6 {
        assert!(c.category(tab).is_empty());
    }
}

#[test]
fn summary_text() {
    let packages = vec![
        change("a", &["1"], &["2"], Some(("3.0", "KiB"))),
        change("linux", &["6.1"], &["6.2"], None),
        change("d", &[], &[], Some(("0.0", "KiB"))),
    ];
    let c = PackageChanges::from_packages(packages);
    let sizes = vec![
        vec![None],
        vec![Some("3KiB".to_string())],
        vec![],
        vec![],
        vec![None],
        vec![],
    ];
    assert_eq!(
        c.summary(&sizes),
        "--- Package Update Summary ---\n[Kernel Updates]\nlinux: 6.1 -> 6.2\n\n\n[Updated Packages]\na: 1 -> 2, 3KiB\n\n\n[Rebuilt Packages]\nd: \n\n\n"
    );
    assert_eq!(PackageChanges::default().summary(&vec![vec![]; 6]), "--- Package Update Summary ---\n");
}
