//! WebSocket frames: their kinds, and their bytes on the wire, which the
//! `websocket` crate writes.

use vstd::prelude::*;

verus! {

/// The kind of a WebSocket frame.
#[derive(Copy, Clone, PartialEq, Eq, Structural, Debug)]
pub enum FrameKind {
    Text,
    Binary,
    Ping,
    Pong,
    Continue,
    Close,
}

impl FrameKind {
    /// The number of the kind in the first byte of a frame.
    pub open spec fn opcode(self) -> u8 {
        match self {
            FrameKind::Continue => 0,
            FrameKind::Text => 1,
            FrameKind::Binary => 2,
            FrameKind::Close => 8,
            FrameKind::Ping => 9,
            FrameKind::Pong => 10,
        }
    }

    /// Whether a frame of the kind is a control frame.
    pub open spec fn is_control(self) -> bool {
        self.opcode() >= 8
    }
}

/// The number `n` in `width` bytes, the highest first.
pub open spec fn big_endian(n: nat, width: nat) -> Seq<u8>
    decreases width,
{
    if width == 0 {
        Seq::empty()
    } else {
        big_endian(n / 256, (width - 1) as nat).push((n % 256) as u8)
    }
}

/// How an unmasked frame writes the length of its payload: in one byte up to
/// 125, else as 126 and two bytes up to 65535, else as 127 and eight bytes.
pub open spec fn length_bytes(len: nat) -> Seq<u8> {
    if len <= 125 {
        seq![len as u8]
    } else if len <= 65535 {
        seq![126u8] + big_endian(len, 2)
    } else {
        seq![127u8] + big_endian(len, 8)
    }
}

/// The bytes of the final, unmasked frame of a kind and payload: the final
/// bit and the kind in one byte, the length, then the payload. There is no
/// control frame with a payload of more than 125 bytes.
pub open spec fn frame_bytes(kind: FrameKind, payload: Seq<u8>) -> Option<Seq<u8>> {
    if kind.is_control() && payload.len() > 125 {
        None
    } else {
        Some(seq![(128 + kind.opcode()) as u8] + length_bytes(payload.len()) + payload)
    }
}

/// A frame that is no control frame can always be written, and so can a
/// control frame with a payload of up to 125 bytes.
pub proof fn lemma_frame_exists(kind: FrameKind, payload: Seq<u8>)
    ensures
        frame_bytes(kind, payload) is Some <==> !kind.is_control() || payload.len() <= 125,
        frame_bytes(FrameKind::Text, payload) is Some,
        frame_bytes(FrameKind::Binary, payload) is Some,
{
}

/// A frame ends in its payload, and what stands before the payload is between
/// two and ten bytes long.
pub proof fn lemma_frame_carries_payload(kind: FrameKind, payload: Seq<u8>)
    requires
        frame_bytes(kind, payload) is Some,
    ensures
        ({
            let frame = frame_bytes(kind, payload)->0;
            &&& 2 <= frame.len() - payload.len() <= 10
            &&& frame.subrange(frame.len() - payload.len(), frame.len() as int) == payload
            &&& frame[0] == 128 + kind.opcode()
        }),
{
    let frame = frame_bytes(kind, payload)->0;
    reveal_with_fuel(big_endian, 9);
    assert(big_endian(payload.len(), 2).len() == 2);
    assert(big_endian(payload.len(), 8).len() == 8);
    assert(frame.subrange(frame.len() - payload.len(), frame.len() as int) =~= payload);
}

/// The frame of a kind and payload: `DataFrame::new` of the `websocket` crate
/// with the final bit set, written unmasked into a vector by `write_to` of
/// its `DataFrame` trait. The contract claims what the crate's `write_to` and
/// `write_header` show: the first byte holds the final bit and the opcode; the
/// length follows in one, three or nine bytes, the longer forms with the
/// highest byte first; then comes the payload as it is. The crate reports an
/// error, and nothing comes out, exactly for a close, a ping or a pong with a
/// payload of more than 125 bytes.
#[verifier::external_body]
pub(crate) fn encode_frame(kind: FrameKind, payload: Vec<u8>) -> (r: Option<Vec<u8>>)
    ensures
        frame_bytes(kind, payload@) == match r {
            Some(frame) => Some(frame@),
            None => None,
        },
{
    let opcode = match kind {
        FrameKind::Text => websocket::dataframe::Opcode::Text,
        FrameKind::Binary => websocket::dataframe::Opcode::Binary,
        FrameKind::Ping => websocket::dataframe::Opcode::Ping,
        FrameKind::Pong => websocket::dataframe::Opcode::Pong,
        FrameKind::Continue => websocket::dataframe::Opcode::Continuation,
        FrameKind::Close => websocket::dataframe::Opcode::Close,
    };
    let frame = websocket::dataframe::DataFrame::new(true, opcode, payload);
    let mut bytes = Vec::new();
    match websocket::ws::dataframe::DataFrame::write_to(&frame, &mut bytes, false) {
        Ok(()) => Some(bytes),
        Err(_) => None,
    }
}

} // verus!
