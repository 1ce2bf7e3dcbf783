//! Decimal rendering of numbers, for `/proc/<pid>` paths and id-map lines.

use vstd::prelude::*;

verus! {

/// The character of one decimal digit.
pub open spec fn spec_digit(d: int) -> char
    recommends
        0 <= d < 10,
{
    if d == 0 {
        '0'
    } else if d == 1 {
        '1'
    } else if d == 2 {
        '2'
    } else if d == 3 {
        '3'
    } else if d == 4 {
        '4'
    } else if d == 5 {
        '5'
    } else if d == 6 {
        '6'
    } else if d == 7 {
        '7'
    } else if d == 8 {
        '8'
    } else {
        '9'
    }
}

/// The decimal spelling of `n`, without a sign.
pub open spec fn spec_dec(n: int) -> Seq<char>
    recommends
        n >= 0,
    decreases n,
{
    if n <= 0 {
        seq!['0']
    } else if n < 10 {
        seq![spec_digit(n)]
    } else {
        spec_dec(n / 10).push(spec_digit(n % 10))
    }
}

fn digit_char(d: u64) -> (r: char)
    requires
        d < 10,
    ensures
        r == spec_digit(d as int),
{
    if d == 0 {
        '0'
    } else if d == 1 {
        '1'
    } else if d == 2 {
        '2'
    } else if d == 3 {
        '3'
    } else if d == 4 {
        '4'
    } else if d == 5 {
        '5'
    } else if d == 6 {
        '6'
    } else if d == 7 {
        '7'
    } else if d == 8 {
        '8'
    } else {
        '9'
    }
}

fn dec_chars(n: u64) -> (r: Vec<char>)
    ensures
        r@ == spec_dec(n as int),
    decreases n,
{
    if n < 10 {
        let mut out: Vec<char> = Vec::new();
        out.push(digit_char(n));
        proof {
            assert(out@ =~= spec_dec(n as int));
        }
        out
    } else {
        let mut out = dec_chars(n / 10);
        out.push(digit_char(n % 10));
        out
    }
}

/// Relies on String::push: appends exactly one character.
#[verifier::external_body]
fn push_char(s: &mut String, c: char)
    ensures
        final(s)@ == old(s)@.push(c),
{
    s.push(c);
}

/// Render `n` in decimal.
pub fn u64_to_dec(n: u64) -> (r: String)
    ensures
        r@ == spec_dec(n as int),
{
    let chars = dec_chars(n);
    let mut out = String::new();
    let mut i: usize = 0;
    while i < chars.len()
        invariant
            0 <= i <= chars@.len(),
            out@ == chars@.subrange(0, i as int),
        decreases chars@.len() - i,
    {
        push_char(&mut out, chars[i]);
        proof {
            assert(out@ =~= chars@.subrange(0, i + 1));
        }
        i = i + 1;
    }
    proof {
        assert(chars@.subrange(0, chars@.len() as int) =~= chars@);
    }
    out
}

/// The single line written to a `uid_map` or `gid_map` file: the id mapped
/// onto itself, once.  Written whole in one write, as the kernel interface
/// demands.
pub fn id_map_line(id: u64) -> (r: String)
    ensures
        r@ == spec_dec(id as int) + " "@ + spec_dec(id as int) + " 1"@,
{
    let d = u64_to_dec(id);
    let mut out = d.clone();
    out.append(" ");
    out.append(d.as_str());
    out.append(" 1");
    out
}

/// Whether an environment variable survives into the jail: only `HOME` and
/// `TERM` are inherited.
pub open spec fn spec_env_kept(name: Seq<char>) -> bool {
    name == "HOME"@ || name == "TERM"@
}

/// Keep only the environment entries a jailed process inherits.
pub fn filter_env(vars: Vec<(String, String)>) -> (r: Vec<(String, String)>)
    ensures
        forall|i: int|
            0 <= i < r@.len() ==> spec_env_kept((#[trigger] r@[i]).0@),
        forall|i: int|
            0 <= i < vars@.len() && spec_env_kept((#[trigger] vars@[i]).0@) ==> exists|j: int|
                0 <= j < r@.len() && r@[j].0@ == vars@[i].0@ && r@[j].1@ == vars@[i].1@,
{
    let mut out: Vec<(String, String)> = Vec::new();
    let mut i: usize = 0;
    while i < vars.len()
        invariant
            0 <= i <= vars@.len(),
            forall|k: int|
                0 <= k < out@.len() ==> spec_env_kept((#[trigger] out@[k]).0@),
            forall|k: int|
                0 <= k < i && spec_env_kept((#[trigger] vars@[k]).0@) ==> exists|j: int|
                    0 <= j < out@.len() && out@[j].0@ == vars@[k].0@ && out@[j].1@
                        == vars@[k].1@,
        decreases vars@.len() - i,
    {
        let keep = crate::path::str_eq(vars[i].0.as_str(), "HOME") || crate::path::str_eq(
            vars[i].0.as_str(),
            "TERM",
        );
        if keep {
            let ghost o0 = out@;
            out.push((vars[i].0.clone(), vars[i].1.clone()));
            proof {
                assert forall|k: int|
                    0 <= k < i + 1 && spec_env_kept((#[trigger] vars@[k]).0@) implies exists|
                    j: int,
                |
                    0 <= j < out@.len() && out@[j].0@ == vars@[k].0@ && out@[j].1@
                        == vars@[k].1@ by {
                    if k < i {
                        let j = choose|j: int|
                            0 <= j < o0.len() && o0[j].0@ == vars@[k].0@ && o0[j].1@
                                == vars@[k].1@;
                        assert(out@[j].0@ == vars@[k].0@ && out@[j].1@ == vars@[k].1@);
                    } else {
                        assert(out@[o0.len() as int].0@ == vars@[k].0@ && out@[o0.len() as int].1@
                            == vars@[k].1@);
                    }
                }
            }
        }
        i = i + 1;
    }
    out
}

} // verus!
