//! Base64 with the standard alphabet and `=` padding.

use vstd::prelude::*;
use vstd::string::{StrSliceExecFns, StringExecFns};

verus! {

/// The 64 symbols of the alphabet, in the order of their values.
pub open spec fn alphabet() -> Seq<char> {
    "ABCDEFGHIJKLMNOPQRSTUVWXYZabcdefghijklmnopqrstuvwxyz0123456789+/"@
}

/// The symbol that stands for the six bits `value`.
pub open spec fn symbol(value: u8) -> char {
    alphabet()[value as int]
}

/// The four symbols that stand for three bytes.
pub open spec fn encode_three(a: u8, b: u8, c: u8) -> Seq<char> {
    seq![
        symbol(a >> 2),
        symbol((a & 3) << 4 | b >> 4),
        symbol((b & 15) << 2 | c >> 6),
        symbol(c & 63),
    ]
}

/// The base64 text of `bytes`: four symbols for every three bytes, the last
/// group filled up with `=` where one or two bytes are left.
pub open spec fn encode(bytes: Seq<u8>) -> Seq<char>
    decreases bytes.len(),
{
    if bytes.len() == 0 {
        Seq::empty()
    } else if bytes.len() == 1 {
        seq![symbol(bytes[0] >> 2), symbol((bytes[0] & 3) << 4), '=', '=']
    } else if bytes.len() == 2 {
        seq![
            symbol(bytes[0] >> 2),
            symbol((bytes[0] & 3) << 4 | bytes[1] >> 4),
            symbol((bytes[1] & 15) << 2),
            '=',
        ]
    } else {
        encode_three(bytes[0], bytes[1], bytes[2]) + encode(bytes.skip(3))
    }
}

/// The text of `bytes` is that of all but its last group, then that of the
/// last group.
pub proof fn lemma_encode_split(bytes: Seq<u8>, at: int)
    requires
        0 <= at <= bytes.len(),
        at % 3 == 0,
    ensures
        encode(bytes) == encode(bytes.take(at)) + encode(bytes.skip(at)),
    decreases at,
{
    if at == 0 {
        assert(bytes.take(0) == Seq::<u8>::empty());
        assert(bytes.skip(0) == bytes);
        assert(encode(bytes.take(0)) + encode(bytes) == encode(bytes));
    } else {
        let head = bytes.take(at);
        let rest = bytes.skip(3);
        lemma_encode_split(rest, at - 3);
        assert(rest.take(at - 3) == head.skip(3));
        assert(rest.skip(at - 3) == bytes.skip(at));
        assert(encode(bytes) == encode_three(bytes[0], bytes[1], bytes[2]) + encode(rest));
        assert(encode(head) == encode_three(head[0], head[1], head[2]) + encode(head.skip(3)));
        assert(encode_three(bytes[0], bytes[1], bytes[2]) + (encode(head.skip(3)) + encode(
            bytes.skip(at),
        )) == (encode_three(bytes[0], bytes[1], bytes[2]) + encode(head.skip(3))) + encode(
            bytes.skip(at),
        ));
    }
}

/// Appends the symbol of the six bits `value`.
fn push_symbol(out: &mut String, value: u8)
    requires
        value < 64,
    ensures
        final(out)@ == old(out)@.push(symbol(value)),
{
    let table = "ABCDEFGHIJKLMNOPQRSTUVWXYZabcdefghijklmnopqrstuvwxyz0123456789+/";
    proof {
        reveal_strlit("ABCDEFGHIJKLMNOPQRSTUVWXYZabcdefghijklmnopqrstuvwxyz0123456789+/");
        assert(table@.len() == 64);
        assert(table.is_ascii());
    }
    let one = table.substring_ascii(value as usize, value as usize + 1);
    out.append(one);
    assert(one@ == seq![symbol(value)]);
    assert(out@ == old(out)@.push(symbol(value)));
}

/// The base64 text of `bytes`.
pub fn to_base64(bytes: &[u8]) -> (text: String)
    ensures
        text@ == encode(bytes@),
{
    let mut out = String::new();
    let mut i: usize = 0;
    proof {
        lemma_encode_split(bytes@, 0);
    }
    while bytes.len() - i >= 3
        invariant
            i <= bytes.len(),
            i % 3 == 0,
            out@ == encode(bytes@.take(i as int)),
        decreases bytes.len() - i,
    {
        let a = bytes[i];
        let b = bytes[i + 1];
        let c = bytes[i + 2];
        assert(a >> 2 < 64 && ((a & 3) << 4 | b >> 4) < 64 && ((b & 15) << 2 | c >> 6) < 64 && c
            & 63 < 64) by (bit_vector);
        push_symbol(&mut out, a >> 2);
        push_symbol(&mut out, (a & 3) << 4 | b >> 4);
        push_symbol(&mut out, (b & 15) << 2 | c >> 6);
        push_symbol(&mut out, c & 63);
        proof {
            let done = bytes@.take(i + 3);
            lemma_encode_split(done, i as int);
            assert(done.take(i as int) == bytes@.take(i as int));
            let last = done.skip(i as int);
            assert(last.len() == 3);
            assert(last.skip(3) == Seq::<u8>::empty());
            assert(encode(last) == encode_three(a, b, c) + encode(last.skip(3)));
            assert(encode(last) == encode_three(a, b, c));
            assert(out@ == encode(bytes@.take(i as int)) + encode_three(a, b, c));
        }
        i += 3;
    }
    proof {
        lemma_encode_split(bytes@, i as int);
    }
    let ghost rest = bytes@.skip(i as int);
    if bytes.len() - i == 1 {
        let a = bytes[i];
        assert(a >> 2 < 64 && (a & 3) << 4 < 64) by (bit_vector);
        push_symbol(&mut out, a >> 2);
        push_symbol(&mut out, (a & 3) << 4);
        out.append("==");
        proof {
            reveal_strlit("==");
            assert("=="@ == seq!['=', '=']);
            assert(out@ == encode(bytes@.take(i as int)) + encode(rest));
        }
    } else if bytes.len() - i == 2 {
        let a = bytes[i];
        let b = bytes[i + 1];
        assert(a >> 2 < 64 && ((a & 3) << 4 | b >> 4) < 64 && (b & 15) << 2 < 64) by (bit_vector);
        push_symbol(&mut out, a >> 2);
        push_symbol(&mut out, (a & 3) << 4 | b >> 4);
        push_symbol(&mut out, (b & 15) << 2);
        out.append("=");
        proof {
            reveal_strlit("=");
            assert("="@ == seq!['=']);
            assert(out@ == encode(bytes@.take(i as int)) + encode(rest));
        }
    } else {
        assert(rest.len() == 0);
        assert(out@ == encode(bytes@.take(i as int)) + encode(rest));
    }
    out
}

} // verus!
