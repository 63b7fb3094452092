use nixos_gen_diff::model::package::PackageChangeType;
use nixos_gen_diff::nix::diff::{parse_change_line, parse_diff, parse_packages, ParseError};

#[test]
fn parses_no_arrow_rebuild_only() {
    let result = parse_packages("7zz: 2.8 MiB").unwrap().unwrap();
    assert_eq!(result.pkg_name, "7zz");
    assert!(result.old_ver.is_empty());
    assert!(result.new_ver.is_empty());
    let size = result.size_delta.expect("expected a size delta");
    assert_eq!(size.delta.parse::<f64>().unwrap(), 2.8);
    assert_eq!(size.unit, "MiB");
}

#[test]
fn parses_single_version_both_sides_with_size() {
    let result = parse_packages("thing: 0.1 → 0.2, 245.0 KiB").unwrap().unwrap();
    assert_eq!(result.pkg_name, "thing");
    assert_eq!(result.old_ver, vec!["0.1"]);
    assert_eq!(result.new_ver, vec!["0.2"]);
    let size = result.size_delta.expect("expected a size delta");
    assert_eq!(size.delta.parse::<f64>().unwrap(), 245.0);
    assert_eq!(size.unit, "KiB");
}

#[test]
fn parses_multi_version_both_sides_with_size() {
    let result = parse_packages("bottles: 65.4, 65.4-fhsenv → 64.1, 64.1-fhsenv, -188.0 KiB")
        .unwrap()
        .unwrap();
    assert_eq!(result.pkg_name, "bottles");
    assert_eq!(result.old_ver, vec!["65.4", "65.4-fhsenv"]);
    assert_eq!(result.new_ver, vec!["64.1", "64.1-fhsenv"]);
    let size = result.size_delta.expect("expected a size delta");
    assert_eq!(size.delta.parse::<f64>().unwrap(), -188.0);
    assert_eq!(size.unit, "KiB");
}

#[test]
fn parses_epsilon_and_empty_set_placeholders_as_empty() {
    let result = parse_packages("extra.targets: ε → ∅").unwrap().unwrap();
    assert_eq!(result.pkg_name, "extra.targets");
    assert!(result.old_ver.is_empty());
    assert!(result.new_ver.is_empty());
    assert!(result.size_delta.is_none());
}

#[test]
fn escape_sequences_are_taken_out() {
    let result = parse_packages("\x1b[1mthing\x1b[0m: \x1b[31;1m0.1\x1b[0m → \x1b[32;1m0.2\x1b[0m")
        .unwrap()
        .unwrap();
    assert_eq!(result.pkg_name, "thing");
    assert_eq!(result.old_ver, vec!["0.1"]);
    assert_eq!(result.new_ver, vec!["0.2"]);
    assert!(result.size_delta.is_none());
}

#[test]
fn added_package_with_size() {
    let result = parse_packages("foo: ∅ → 1.0, +12.5 KiB").unwrap().unwrap();
    assert_eq!(result.pkg_name, "foo");
    assert!(result.old_ver.is_empty());
    assert_eq!(result.new_ver, vec!["1.0"]);
    assert!(matches!(result.classify_package(), PackageChangeType::Added));
    let size = result.size_delta.unwrap();
    assert_eq!(size.delta, "+12.5");
    assert_eq!(size.unit, "KiB");
}

#[test]
fn removed_package_without_size() {
    let result = parse_packages("bar: 2.3 → ∅").unwrap().unwrap();
    assert_eq!(result.old_ver, vec!["2.3"]);
    assert!(result.new_ver.is_empty());
    assert!(result.size_delta.is_none());
    assert!(matches!(result.classify_package(), PackageChangeType::Removed));
}

#[test]
fn arrow_line_whose_last_words_are_not_a_size() {
    // The word before last is not a number, so the tail stays versions.
    let result = parse_packages("pkg: a → b c d").unwrap().unwrap();
    assert_eq!(result.old_ver, vec!["a"]);
    assert_eq!(result.new_ver, vec!["b", "c", "d"]);
    assert!(result.size_delta.is_none());
}

#[test]
fn arrow_line_with_one_word_after_the_arrow_has_no_size() {
    let result = parse_packages("pkg: 1 → 2").unwrap().unwrap();
    assert_eq!(result.new_ver, vec!["2"]);
    assert!(result.size_delta.is_none());
}

#[test]
fn line_without_arrow_or_size_is_refused() {
    assert_eq!(parse_packages("pkg: big MiB").unwrap().unwrap_err(), ParseError::SizeNotANumber);
    assert_eq!(parse_packages("name: foo bar").unwrap().unwrap_err(), ParseError::SizeNotANumber);
    assert_eq!(parse_packages("pkg: big").unwrap().unwrap_err(), ParseError::SizeNotANumber);
}

#[test]
fn size_right_after_the_name_ignores_the_rest() {
    let result = parse_packages("name: 2.8 MiB extra").unwrap().unwrap();
    assert!(result.old_ver.is_empty());
    assert!(result.new_ver.is_empty());
    let size = result.size_delta.unwrap();
    assert_eq!(size.delta, "2.8");
    assert_eq!(size.unit, "MiB");
}

#[test]
fn any_word_that_is_not_a_number_is_a_unit() {
    let result = parse_packages("foo: 1 → 2, 3.0 KB").unwrap().unwrap();
    assert_eq!(result.new_ver, vec!["2"]);
    let size = result.size_delta.unwrap();
    assert_eq!(size.delta, "3.0");
    assert_eq!(size.unit, "KB");
}

#[test]
fn new_versions_and_size_without_arrow() {
    let result = parse_packages("foo: 1.2.3, +5.0 KiB").unwrap().unwrap();
    assert_eq!(result.pkg_name, "foo");
    assert!(result.old_ver.is_empty());
    assert_eq!(result.new_ver, vec!["1.2.3"]);
    let size = result.size_delta.unwrap();
    assert_eq!(size.delta.parse::<f64>().unwrap(), 5.0);
    assert_eq!(size.unit, "KiB");
}

#[test]
fn bare_name_line() {
    let result = parse_packages("name:").unwrap().unwrap();
    assert_eq!(result.pkg_name, "name");
    assert!(result.old_ver.is_empty());
    assert!(result.new_ver.is_empty());
    assert!(result.size_delta.is_none());
}

#[test]
fn trailing_number_without_unit_stays_a_version() {
    let result = parse_packages("foo: 1.0 → 2.0, 3.0").unwrap().unwrap();
    assert_eq!(result.old_ver, vec!["1.0"]);
    assert_eq!(result.new_ver, vec!["2.0", "3.0"]);
    assert!(result.size_delta.is_none());
}

#[test]
fn unreadable_lines() {
    assert!(parse_packages("").is_none());
    assert!(parse_packages("   ").is_none());
    assert!(parse_packages("→ 1.0").is_none());
    assert!(parse_packages("pkg: 2.8").is_none());
}

#[test]
fn name_loses_all_trailing_colons_and_commas() {
    let result = parse_change_line("name::,, 1.0 KiB").unwrap();
    assert_eq!(result.pkg_name, "name");
}

#[test]
fn whole_diff_is_read_in_order() {
    let text = "a: 1 → 2, 3.0 KiB\nb: 4.0 MiB\r\nlinux: 6.1 → 6.2\n";
    let changes = parse_diff(text).unwrap().unwrap();
    assert_eq!(changes.len(), 3);
    assert_eq!(changes[0].pkg_name, "a");
    assert_eq!(changes[1].pkg_name, "b");
    assert_eq!(changes[1].size_delta.as_ref().unwrap().unit, "MiB");
    assert_eq!(changes[2].pkg_name, "linux");
}

#[test]
fn whole_diff_stops_at_the_first_refusal() {
    assert_eq!(parse_diff("a: x KiB\n\n").unwrap().unwrap_err(), ParseError::SizeNotANumber);
    assert!(parse_diff("a: 1.0 KiB\n\nb: x KiB\n").is_none());
    assert_eq!(parse_diff("").unwrap().unwrap().len(), 0);
}

#[test]
fn placeholders_on_both_sides_classify_as_other() {
    let result = parse_packages("extra.targets: ε → ∅").unwrap().unwrap();
    assert!(matches!(result.classify_package(), PackageChangeType::Other));
}
