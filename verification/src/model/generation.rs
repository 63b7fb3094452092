//! One NixOS system generation.

use vstd::prelude::*;

verus! {

/// A system generation as `nixos-rebuild list-generations` lists it, with
/// the profile link it is reached by.
#[derive(Debug, PartialEq, Eq, PartialOrd, Ord)]
pub struct Generation {
    pub number: u32,
    pub link: String,
    pub build_date: String,
    pub ver: String,
    pub kernel: String,
    pub is_current: bool,
}

pub struct GenerationView {
    pub number: u32,
    pub link: Seq<char>,
    pub build_date: Seq<char>,
    pub ver: Seq<char>,
    pub kernel: Seq<char>,
    pub is_current: bool,
}

impl View for Generation {
    type V = GenerationView;

    open spec fn view(&self) -> GenerationView {
        GenerationView {
            number: self.number,
            link: self.link@,
            build_date: self.build_date@,
            ver: self.ver@,
            kernel: self.kernel@,
            is_current: self.is_current,
        }
    }
}

impl Clone for Generation {
    fn clone(&self) -> (r: Self)
        ensures
            r@ == self@,
    {
        Generation {
            number: self.number,
            link: self.link.clone(),
            build_date: self.build_date.clone(),
            ver: self.ver.clone(),
            kernel: self.kernel.clone(),
            is_current: self.is_current,
        }
    }
}

impl Generation {
    /// Whether `self` and `other` agree in every field.
    pub fn same_as(&self, other: &Generation) -> (r: bool)
        ensures
            r == (self@ == other@),
    {
        self.number == other.number && self.link == other.link && self.build_date
            == other.build_date && self.ver == other.ver && self.kernel == other.kernel
            && self.is_current == other.is_current
    }
}

} // verus!
