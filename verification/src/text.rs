//! Comparison of string slices, proved from the UTF-8 model of `vstd`.

use vstd::prelude::*;
use vstd::std_specs::iter::IteratorSpec;
use vstd::string::StringSliceAdditionalSpecFns;
use vstd::utf8::{encode_utf8, encode_utf8_decode_utf8};

verus! {

/// Two strings with the same UTF-8 bytes hold the same characters.
pub proof fn lemma_same_bytes_same_text(a: Seq<char>, b: Seq<char>)
    requires
        encode_utf8(a) == encode_utf8(b),
    ensures
        a == b,
{
    encode_utf8_decode_utf8(a);
    encode_utf8_decode_utf8(b);
}

/// Whether two string slices hold the same text.
pub fn str_equal(a: &str, b: &str) -> (r: bool)
    ensures
        r == (a@ == b@),
{
    let x = a.as_bytes();
    let y = b.as_bytes();
    if x.len() != y.len() {
        return false;
    }
    let mut i: usize = 0;
    while i < x.len()
        invariant
            i <= x.len(),
            x.len() == y.len(),
            x@ == a.spec_bytes(),
            y@ == b.spec_bytes(),
            forall|k: int| 0 <= k < i ==> x@[k] == y@[k],
        decreases x.len() - i,
    {
        if x[i] != y[i] {
            return false;
        }
        i += 1;
    }
    proof {
        assert(x@ =~= y@);
        lemma_same_bytes_same_text(a@, b@);
    }
    true
}

/// The characters of `text`, in order.
pub fn chars_of(text: &str) -> (chars: Vec<char>)
    ensures
        chars@ == text@,
{
    let mut chars: Vec<char> = Vec::new();
    for c in it: text.chars()
        invariant
            it.seq() == text@,
            chars@ == it.seq().take(it.index() as int),
    {
        chars.push(c);
        assert(chars@ == it.seq().take(it.index() + 1));
    }
    assert(text@.take(text@.len() as int) == text@);
    chars
}

/// The pieces of `text`: what stands before, between and after its marks.
pub open spec fn pieces(text: Seq<char>, mark: char) -> Seq<Seq<char>>
    decreases text.len(),
{
    if text.len() == 0 {
        seq![Seq::empty()]
    } else {
        let before = pieces(text.drop_last(), mark);
        if text.last() == mark {
            before.push(Seq::empty())
        } else {
            before.update(before.len() - 1, before.last().push(text.last()))
        }
    }
}

/// Where each piece of the first `n` characters of `text` starts and ends.
pub fn piece_bounds(text: &Vec<char>, n: usize, mark: char) -> (bounds: Vec<(usize, usize)>)
    requires
        n <= text.len(),
    ensures
        bounds.len() == pieces(text@.take(n as int), mark).len(),
        bounds.len() >= 1,
        forall|k: int|
            0 <= k < bounds.len() ==> {
                let (from, to) = #[trigger] bounds[k];
                from <= to <= n && pieces(text@.take(n as int), mark)[k] == text@.subrange(
                    from as int,
                    to as int,
                )
            },
{
    let mut bounds: Vec<(usize, usize)> = Vec::new();
    let mut from: usize = 0;
    let mut i: usize = 0;
    assert(text@.take(0) == Seq::<char>::empty());
    assert(text@.subrange(0, 0) == Seq::<char>::empty());
    while i < n
        invariant
            from <= i <= n <= text.len(),
            bounds.len() + 1 == pieces(text@.take(i as int), mark).len(),
            forall|k: int|
                0 <= k < bounds.len() ==> {
                    let (a, b) = #[trigger] bounds[k];
                    a <= b <= i && pieces(text@.take(i as int), mark)[k] == text@.subrange(
                        a as int,
                        b as int,
                    )
                },
            pieces(text@.take(i as int), mark).last() == text@.subrange(from as int, i as int),
        decreases n - i,
    {
        let ghost before = pieces(text@.take(i as int), mark);
        let ghost after = pieces(text@.take(i + 1), mark);
        assert(text@.take(i + 1).drop_last() == text@.take(i as int));
        assert(text@.take(i + 1).last() == text@[i as int]);
        if text[i] == mark {
            bounds.push((from, i));
            from = i + 1;
            assert(after == before.push(Seq::empty()));
            assert(text@.subrange(i + 1, i + 1) == Seq::<char>::empty());
        } else {
            assert(after == before.update(before.len() - 1, before.last().push(text@[i as int])));
            assert(text@.subrange(from as int, i + 1) == text@.subrange(from as int, i as int).push(
                text@[i as int],
            ));
        }
        i += 1;
    }
    bounds.push((from, n));
    bounds
}

} // verus!
