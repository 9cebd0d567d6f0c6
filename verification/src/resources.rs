//! Which files a request may name: those below the root of the resources.

use vstd::prelude::*;
use crate::error::ServerError;
use crate::text::{chars_of, piece_bounds, pieces};

verus! {

/// By how much a part of a path changes the depth below the root: `..` goes
/// up by one, `.` and an empty part stay, any other part goes down by one.
pub open spec fn step(part: Seq<char>) -> int {
    if part == seq!['.', '.'] {
        -1
    } else if part.len() == 0 || part == seq!['.'] {
        0
    } else {
        1
    }
}

/// The depth below the root after `parts`.
pub open spec fn depth_after(parts: Seq<Seq<char>>) -> int
    decreases parts.len(),
{
    if parts.len() == 0 {
        0
    } else {
        depth_after(parts.drop_last()) + step(parts.last())
    }
}

/// Whether a path stays below the root: read part by part, between its
/// slashes, it never stands above the root.
pub open spec fn stays_inside(path: Seq<char>) -> bool {
    let parts = pieces(path, '/');
    forall|n: int| 0 <= n <= parts.len() ==> depth_after(#[trigger] parts.take(n)) >= 0
}

/// By how much the characters of `path` from `from` to `to` change the depth.
fn part_step(path: &Vec<char>, from: usize, to: usize) -> (r: i8)
    requires
        from <= to <= path.len(),
    ensures
        r == step(path@.subrange(from as int, to as int)),
{
    let ghost part = path@.subrange(from as int, to as int);
    let ghost up = seq!['.', '.'];
    let ghost here = seq!['.'];
    assert(up.len() == 2 && up[0] == '.' && up[1] == '.');
    assert(here.len() == 1 && here[0] == '.');
    assert(forall|k: int| 0 <= k < part.len() ==> part[k] == path@[from + k]);
    if to - from == 2 && path[from] == '.' && path[from + 1] == '.' {
        assert(part == up);
        -1
    } else if to == from {
        0
    } else if to - from == 1 && path[from] == '.' {
        assert(part == here);
        0
    } else {
        proof {
            if part == up {
                assert(part[0] == path@[from + 0] && part[1] == path@[from + 1]);
            }
            if part == here {
                assert(part[0] == path@[from + 0]);
            }
        }
        1
    }
}

/// Checks that `path` names a file below the root of the resources.
pub fn check_resource(path: &str) -> (r: Result<(), ServerError>)
    ensures
        r is Ok <==> stays_inside(path@),
        r matches Err(error) ==> error is PathOutsideResources,
{
    let chars = chars_of(path);
    let bounds = piece_bounds(&chars, chars.len(), '/');
    let ghost parts = pieces(path@, '/');
    assert(chars@.take(chars.len() as int) == chars@);
    let mut depth: usize = 0;
    let mut i: usize = 0;
    assert(parts.take(0) == Seq::<Seq<char>>::empty());
    while i < bounds.len()
        invariant
            i <= bounds.len(),
            bounds.len() == parts.len(),
            chars@ == path@,
            parts == pieces(chars@, '/'),
            forall|k: int|
                0 <= k < bounds.len() ==> {
                    let (from, to) = #[trigger] bounds[k];
                    from <= to <= chars.len() && parts[k] == chars@.subrange(
                        from as int,
                        to as int,
                    )
                },
            depth == depth_after(parts.take(i as int)),
            depth <= i,
            forall|n: int| 0 <= n <= i ==> depth_after(#[trigger] parts.take(n)) >= 0,
        decreases bounds.len() - i,
    {
        let (from, to) = bounds[i];
        let change = part_step(&chars, from, to);
        assert(parts.take(i + 1).drop_last() == parts.take(i as int));
        assert(parts.take(i + 1).last() == parts[i as int]);
        if change < 0 {
            if depth == 0 {
                assert(depth_after(parts.take(i + 1)) < 0);
                return Err(ServerError::PathOutsideResources);
            }
            depth -= 1;
        } else if change > 0 {
            depth += 1;
        }
        i += 1;
    }
    Ok(())
}

} // verus!
