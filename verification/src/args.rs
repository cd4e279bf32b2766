//! Command lines.

use crate::text::{owned, views};
use vstd::prelude::*;

verus! {

/// Appends an argument.
pub fn arg(args: &mut Vec<String>, a: &str)
    ensures
        views(final(args)@) == views(old(args)@).push(a@),
{
    let ghost before = args@;
    args.push(owned(a));
    proof {
        assert(views(args@) =~= views(before).push(a@));
    }
}

/// Appends an option and its value.
pub fn arg2(args: &mut Vec<String>, a: &str, b: &str)
    ensures
        views(final(args)@) == views(old(args)@) + seq![a@, b@],
{
    let ghost before = views(args@);
    arg(args, a);
    arg(args, b);
    proof {
        assert(views(args@) =~= before + seq![a@, b@]);
    }
}

} // verus!
