//! The source files of the project, from a listing of paths.

use vstd::prelude::*;
use crate::text::{split_on, split_str};

verus! {

/// The pieces that are not empty, in order.
pub open spec fn nonempty_pieces(pieces: Seq<Seq<char>>) -> Seq<Seq<char>>
    decreases pieces.len(),
{
    if pieces.len() == 0 {
        Seq::empty()
    } else if pieces.last().len() == 0 {
        nonempty_pieces(pieces.drop_last())
    } else {
        nonempty_pieces(pieces.drop_last()).push(pieces.last())
    }
}

/// The paths of a listing with one path per line, leaving out empty lines.
pub fn filepaths_from_listing(listing: &str) -> (paths: Vec<String>)
    ensures
        paths.deep_view() == nonempty_pieces(split_on(listing@, "\n"@)),
{
    proof {
        reveal_strlit("\n");
    }
    let lines = split_str(listing, "\n");
    let mut paths: Vec<String> = Vec::new();
    let n = lines.len();
    let mut i: usize = 0;
    proof {
        assert(lines.deep_view().take(0) =~= Seq::<Seq<char>>::empty());
        assert(paths.deep_view() =~= Seq::<Seq<char>>::empty());
    }
    while i < n
        invariant
            n == lines.len(),
            0 <= i <= n,
            paths.deep_view() == nonempty_pieces(lines.deep_view().take(i as int)),
        decreases n - i,
    {
        let ghost before = paths.deep_view();
        proof {
            assert(lines.deep_view().take(i + 1).drop_last() =~= lines.deep_view().take(i as int));
        }
        if !lines[i].as_str().is_empty() {
            paths.push(lines[i].clone());
            proof {
                assert(paths.deep_view() =~= before.push(lines[i as int]@));
            }
        }
        i = i + 1;
    }
    proof {
        assert(lines.deep_view().take(n as int) =~= lines.deep_view());
    }
    paths
}

} // verus!
