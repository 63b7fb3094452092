//! Comparing NixOS system generations: the parsing of `nixos-rebuild
//! list-generations` and `nix store diff-closures` output, the sorting of
//! package changes into categories, and the key-driven state of the
//! generation picker.

pub mod text;
pub mod float;
pub mod model;
pub mod nix;
pub mod ui;
