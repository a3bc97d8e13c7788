//! The one piece of external-command plumbing the library owns: the
//! printable command line a failure report names.

use vstd::prelude::*;

use crate::text::spec_join_sep;
use vstd::slice::slice_index_get;

verus! {

/// The command line as a failure report prints it: the program and its
/// arguments joined by single spaces.
pub fn format_command(program: &str, args: &[&str]) -> (r: String)
    ensures
        r@ == spec_join_sep(seq![program@] + args.deep_view(), seq![' ']),
{
    proof {
        reveal_strlit(" ");
        assert(" "@ =~= seq![' ']);
    }
    let mut out = program.to_owned();
    let ghost parts = seq![program@] + args.deep_view();
    proof {
        assert(parts.take(1) =~~= seq![program@]);
        assert(out@ == spec_join_sep(parts.take(1), seq![' ']));
    }
    let n = args.len();
    let mut i: usize = 0;
    while i < n
        invariant
            0 <= i <= n,
            n == args.deep_view().len(),
            parts == seq![program@] + args.deep_view(),
            parts.len() == n + 1,
            out@ == spec_join_sep(parts.take(i + 1), seq![' ']),
            " "@ == seq![' '],
        decreases n - i,
    {
        out.append(" ");
        out.append(*slice_index_get(args, i));
        proof {
            assert(parts.take(i + 2).drop_last() =~~= parts.take(i + 1));
            assert(parts.take(i + 2).last() == args.deep_view()[i as int]);
            assert(out@ =~= spec_join_sep(parts.take(i + 2), seq![' ']));
        }
        i += 1;
    }
    proof {
        assert(parts.take(n + 1) =~~= parts);
    }
    out
}

} // verus!
