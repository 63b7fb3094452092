use nixos_gen_diff::nix::generation::{generation_fields, generation_link_path, parse_generation, GenerationError};
use nixos_gen_diff::text::split_words;

#[test]
fn reads_a_generation_line() {
    let fields = split_words("42   2024-05-01 10:00:00   24.05.20240501   6.6.30   abc   *   True");
    let g = parse_generation(&fields, "/nix/store/xyz-nixos-system".to_string()).unwrap();
    assert_eq!(g.number, 42);
    assert_eq!(g.link, "/nix/store/xyz-nixos-system");
    assert_eq!(g.build_date, "2024-05-01 10:00:00");
    assert_eq!(g.ver, "24.05.20240501");
    assert_eq!(g.kernel, "6.6.30");
    assert!(g.is_current);
}

#[test]
fn not_current_unless_true() {
    let fields = split_words("7 2024-05-01 10:00:00 24.05 6.6.30 abc * False");
    let g = parse_generation(&fields, String::new()).unwrap();
    assert!(!g.is_current);
    let fields = split_words("7 2024-05-01 10:00:00 24.05 6.6.30 abc * true");
    assert!(!parse_generation(&fields, String::new()).unwrap().is_current);
}

#[test]
fn generation_numbers() {
    let line = |n: &str| split_words(&format!("{} d t v k a b True", n));
    assert_eq!(parse_generation(&line("+7"), String::new()).unwrap().number, 7);
    assert_eq!(parse_generation(&line("4294967295"), String::new()).unwrap().number, u32::MAX);
    assert_eq!(parse_generation(&line("4294967296"), String::new()).unwrap_err(), GenerationError::NotANumber);
    assert_eq!(parse_generation(&line("-1"), String::new()).unwrap_err(), GenerationError::NotANumber);
    assert_eq!(parse_generation(&line("abc"), String::new()).unwrap_err(), GenerationError::NotANumber);
}

#[test]
fn link_paths() {
    assert_eq!(generation_link_path("42"), "/nix/var/nix/profiles/system-42-link");
}

#[test]
fn generation_rows_skip_the_heading() {
    let text = "Generation Build-date NixOS-version Kernel Rev Spec Current\n41 2024-04-01 09:00:00 24.05 6.6.29 a * False\n42 2024-05-01 10:00:00 24.05 6.6.30 b * True\n";
    let rows = generation_fields(text);
    assert_eq!(rows.len(), 2);
    assert_eq!(rows[0][0], "41");
    assert_eq!(rows[1][7], "True");
    assert_eq!(rows[1].len(), 8);
    assert!(generation_fields("").is_empty());
    assert!(generation_fields("heading only\n").is_empty());
}
