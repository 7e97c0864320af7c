//! Picking a flag's value out of a command-line argument list.
//!
//! The binary reads the process's arguments; the rule for finding the value
//! that follows a recognised flag lives here.

use vstd::prelude::*;

verus! {

/// True when `s` reads the same as one of the given flag spellings.
pub open spec fn is_flag(prefixes: Seq<String>, s: Seq<char>) -> bool {
    exists|j: int| 0 <= j < prefixes.len() && prefixes[j]@ == s
}

/// The index of the first argument that is a recognised flag, or the number
/// of arguments when none is.
pub open spec fn first_flag(args: Seq<String>, prefixes: Seq<String>) -> int
    decreases args.len(),
{
    if args.len() == 0 {
        0
    } else if is_flag(prefixes, args[0]@) {
        0
    } else {
        1 + first_flag(args.drop_first(), prefixes)
    }
}

/// `first_flag` is in bounds, points at a flag unless there is none, and
/// nothing before it is a flag.
pub proof fn lemma_first_flag(args: Seq<String>, prefixes: Seq<String>)
    ensures
        0 <= first_flag(args, prefixes) <= args.len(),
        first_flag(args, prefixes) < args.len() ==> is_flag(
            prefixes,
            args[first_flag(args, prefixes)]@,
        ),
        forall|t: int| 0 <= t < first_flag(args, prefixes) ==> !is_flag(prefixes, args[t]@),
    decreases args.len(),
{
    if args.len() == 0 {
    } else if is_flag(prefixes, args[0]@) {
    } else {
        lemma_first_flag(args.drop_first(), prefixes);
        assert forall|t: int| 0 <= t < first_flag(args, prefixes) implies !is_flag(
            prefixes,
            args[t]@,
        ) by {
            if t > 0 {
                assert(args.drop_first()[t - 1] == args[t]);
            }
        }
    }
}

fn contains_string(list: &Vec<String>, s: &String) -> (r: bool)
    ensures
        r == is_flag(list@, s@),
{
    let mut j: usize = 0;
    while j < list.len()
        invariant
            j <= list@.len(),
            forall|t: int| 0 <= t < j as int ==> list@[t]@ != s@,
        decreases list@.len() - j as int,
    {
        if list[j] == *s {
            return true;
        }
        j = j + 1;
    }
    false
}

/// The value following the first recognised flag among the given arguments
/// (the arguments after the program name), or nothing when no flag occurs or
/// the flag is the last argument.
pub fn args_argument(args: &Vec<String>, prefixes: &Vec<String>) -> (r: Option<String>)
    ensures
        ({
            let i = first_flag(args@, prefixes@);
            &&& (r is Some <==> i + 1 < args@.len())
            &&& (r matches Some(v) ==> v@ == args@[i + 1]@)
        }),
{
    proof {
        lemma_first_flag(args@, prefixes@);
    }
    let mut i: usize = 0;
    while i < args.len()
        invariant
            i <= args@.len(),
            forall|t: int| 0 <= t < i as int ==> !is_flag(prefixes@, args@[t]@),
        decreases args@.len() - i as int,
    {
        if contains_string(prefixes, &args[i]) {
            proof {
                lemma_first_flag(args@, prefixes@);
                let f = first_flag(args@, prefixes@);
                if f < i as int {
                    assert(is_flag(prefixes@, args@[f]@));
                    assert(false);
                }
                if f > i as int {
                    assert(!is_flag(prefixes@, args@[i as int]@));
                    assert(false);
                }
            }
            if i + 1 < args.len() {
                return Some(args[i + 1].clone());
            } else {
                return None;
            }
        }
        i = i + 1;
    }
    proof {
        lemma_first_flag(args@, prefixes@);
        let f = first_flag(args@, prefixes@);
        if f < args@.len() {
            assert(is_flag(prefixes@, args@[f]@));
            assert(false);
        }
    }
    None
}

} // verus!
