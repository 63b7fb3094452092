//! Reading the lines of `nixos-rebuild list-generations`.
//!
//! A line lists, separated by whitespace: the generation number, the build
//! date and time, the NixOS version, the kernel version, three more columns,
//! and `True` in the eighth column for the current generation.

use vstd::prelude::*;
use vstd::string::*;

use crate::float::{all_digits, is_digit};
use crate::text::{chars_of, lines, split_lines, split_words, words};
use crate::model::generation::{Generation, GenerationView};

verus! {

/// Why a generation line was refused.
#[derive(Clone, Copy, Debug, PartialEq, Eq, Structural)]
pub enum GenerationError {
    /// The first column is not a generation number.
    NotANumber,
}

/// The value of the decimal digits `d`.
pub open spec fn decimal_value(d: Seq<char>) -> int
    decreases d.len(),
{
    if d.len() == 0 {
        0
    } else {
        decimal_value(d.drop_last()) * 10 + (d.last() as int - '0' as int)
    }
}

/// What `u32::from_str` gives, as its documentation states it: an
/// optional `+` then at least one ASCII digit, with a value that fits in a
/// `u32`.
pub open spec fn decimal_u32(s: Seq<char>) -> Option<u32> {
    let d = if s.len() > 0 && s[0] == '+' {
        s.drop_first()
    } else {
        s
    };
    if d.len() > 0 && all_digits(d) && decimal_value(d) <= u32::MAX {
        Some(decimal_value(d) as u32)
    } else {
        None
    }
}

/// The number written `s`, read as `u32::from_str` reads it (see
/// `decimal_u32`).
fn parse_u32(s: &str) -> (r: Option<u32>)
    ensures
        r == decimal_u32(s@),
{
    let v = chars_of(s);
    let mut i: usize = 0;
    if v.len() > 0 && v[0] == '+' {
        i = 1;
    }
    let start = i;
    let ghost d = v@.subrange(start as int, v.len() as int);
    assert(d =~= (if s@.len() > 0 && s@[0] == '+' {
        s@.drop_first()
    } else {
        s@
    }));
    if i == v.len() {
        return None;
    }
    let mut acc: u64 = 0;
    let mut over = false;
    assert(v@.subrange(start as int, start as int) =~= Seq::<char>::empty());
    while i < v.len()
        invariant
            v@ == s@,
            start <= i <= v.len(),
            d == v@.subrange(start as int, v.len() as int),
            d == (if s@.len() > 0 && s@[0] == '+' {
                s@.drop_first()
            } else {
                s@
            }),
            d.len() > 0,
            all_digits(v@.subrange(start as int, i as int)),
            !over ==> acc == decimal_value(v@.subrange(start as int, i as int)) && acc <= u32::MAX,
            over ==> decimal_value(v@.subrange(start as int, i as int)) > u32::MAX,
        decreases v.len() - i,
    {
        let c = v[i];
        if !('0' <= c && c <= '9') {
            assert(d[i - start] == c);
            assert(!is_digit(d[i - start]));
            assert(!all_digits(d));
            return None;
        }
        let ghost before = v@.subrange(start as int, i as int);
        let ghost after = v@.subrange(start as int, i + 1);
        proof {
            assert(after.drop_last() =~= before);
            assert(after.last() == c);
            assert forall|k: int| 0 <= k < after.len() implies is_digit(#[trigger] after[k]) by {
                if k < before.len() {
                    assert(after[k] == before[k]);
                }
            }
            lemma_decimal_value_nonneg(before);
        }
        let digit = (c as u32 - '0' as u32) as u64;
        if !over {
            let next = acc * 10 + digit;
            if next > 4294967295u64 {
                over = true;
            } else {
                acc = next;
            }
        }
        i = i + 1;
    }
    assert(v@.subrange(start as int, v.len() as int) == d);
    if over {
        None
    } else {
        Some(acc as u32)
    }
}

proof fn lemma_decimal_value_nonneg(d: Seq<char>)
    requires
        all_digits(d),
    ensures
        decimal_value(d) >= 0,
    decreases d.len(),
{
    if d.len() > 0 {
        let e = d.drop_last();
        assert forall|k: int| 0 <= k < e.len() implies is_digit(#[trigger] e[k]) by {
            assert(e[k] == d[k]);
        }
        lemma_decimal_value_nonneg(e);
        assert(is_digit(d[d.len() - 1]));
    }
}

/// The path of the profile link of the generation numbered `number`.
pub open spec fn link_path(number: Seq<char>) -> Seq<char> {
    "/nix/var/nix/profiles/system-"@ + number + "-link"@
}

/// The path of the profile link of the generation whose number is written
/// `number`.
pub fn generation_link_path(number: &str) -> (r: String)
    ensures
        r@ == link_path(number@),
{
    let mut p = String::from_str("/nix/var/nix/profiles/system-");
    p.append(number);
    p.append("-link");
    p
}

/// The generation that the columns `f` of a line describe, with `link` the
/// target of its profile link.
pub open spec fn generation_of(f: Seq<Seq<char>>, link: Seq<char>) -> Result<GenerationView, GenerationError> {
    match decimal_u32(f[0]) {
        Some(n) => Ok(
            GenerationView {
                number: n,
                link: link,
                build_date: f[1] + " "@ + f[2],
                ver: f[3],
                kernel: f[4],
                is_current: f[7] == "True"@,
            },
        ),
        None => Err(GenerationError::NotANumber),
    }
}

pub open spec fn generation_result_view(r: Result<Generation, GenerationError>) -> Result<GenerationView, GenerationError> {
    match r {
        Ok(g) => Ok(g@),
        Err(e) => Err(e),
    }
}

/// Reads a generation from the whitespace-separated columns `fields` of a
/// line, with `link` the target of its profile link.
pub fn parse_generation(fields: &Vec<String>, link: String) -> (r: Result<Generation, GenerationError>)
    requires
        fields.len() >= 8,
    ensures
        generation_result_view(r) == generation_of(fields.deep_view(), link@),
{
    let ghost f = fields.deep_view();
    assert(f[0] == fields[0]@ && f[1] == fields[1]@ && f[2] == fields[2]@);
    assert(f[3] == fields[3]@ && f[4] == fields[4]@ && f[7] == fields[7]@);
    let is_current = crate::text::same_text(fields[7].as_str(), "True");
    match parse_u32(fields[0].as_str()) {
        Some(number) => {
            let mut build_date = fields[1].clone();
            build_date.append(" ");
            build_date.append(fields[2].as_str());
            Ok(
                Generation {
                    number,
                    link,
                    build_date,
                    ver: fields[3].clone(),
                    kernel: fields[4].clone(),
                    is_current,
                },
            )
        },
        None => Err(GenerationError::NotANumber),
    }
}


/// The columns of each generation line of `nixos-rebuild list-generations`
/// output: every line after the heading, split at whitespace.
pub open spec fn generation_rows(text: Seq<char>) -> Seq<Seq<Seq<char>>> {
    let ls = lines(text);
    if ls.len() == 0 {
        seq![]
    } else {
        ls.skip(1).map_values(|l: Seq<char>| words(l))
    }
}

/// The columns of each generation line of `nixos-rebuild list-generations`
/// output (see `generation_rows`).
pub fn generation_fields(text: &str) -> (r: Vec<Vec<String>>)
    ensures
        r.deep_view() == generation_rows(text@),
{
    let ls = split_lines(text);
    let ghost lv = ls.deep_view();
    let ghost rows = generation_rows(text@);
    let mut r: Vec<Vec<String>> = Vec::new();
    if ls.len() == 0 {
        assert(r.deep_view() =~= rows);
        return r;
    }
    let mut i: usize = 1;
    assert(r.deep_view() =~= rows.take(0));
    while i < ls.len()
        invariant
            lv == ls.deep_view(),
            lv == lines(text@),
            lv.len() > 0,
            rows == lv.skip(1).map_values(|l: Seq<char>| words(l)),
            1 <= i <= ls.len(),
            r.deep_view() == rows.take(i - 1),
        decreases ls.len() - i,
    {
        let row = split_words(ls[i].as_str());
        let ghost prev = r.deep_view();
        let ghost rv = row.deep_view();
        assert(lv[i as int] == ls[i as int]@);
        assert(rows[i - 1] == words(lv[i as int]));
        r.push(row);
        assert(r.deep_view() =~= prev.push(rv));
        assert(prev.push(rv) =~= rows.take(i as int));
        i = i + 1;
    }
    assert(rows.take(ls.len() - 1) =~= rows);
    r
}

} // verus!
