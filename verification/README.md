# nixos_gen_diff

Compares two NixOS system generations and sorts the package changes between
them into kernel updates, updated, removed, added, rebuilt and other
packages.

- `src/` is the library, verified with Verus: reading the output of
  `nixos-rebuild list-generations` and `nix store diff-closures`
  (`nix/`), the package changes and their categories (`model/`), the
  state of the terminal interface and what each key and each tick does to
  it (`ui/`), and the text helpers these rest on (`text.rs`, `float.rs`).
- `app/` is the terminal program around it: it runs the two commands, reads
  the profile links, draws the screens with ratatui and feeds key presses
  and diff results to the library.
- `tests/` runs the library on concrete inputs.
