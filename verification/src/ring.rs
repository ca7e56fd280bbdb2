//! Receive-ring parsing.
//!
//! The controller writes incoming frames into a circular 8192-byte buffer
//! (allocated with extra room past the end: with wraparound enabled the
//! hardware may run a frame contiguously past offset 8191). Each frame is
//! laid out as a 4-byte header whose third and fourth bytes hold a
//! little-endian length, followed by the payload and a 4-byte CRC trailer;
//! the length counts the header and the trailer, so the usable payload is
//! `length - 4` bytes starting 4 bytes after the cursor. After a frame the
//! cursor advances by `length + 4`, rounds up to the next 4-byte boundary
//! and wraps modulo 8192.

use vstd::prelude::*;
use vstd::slice::{slice_subrange, slice_to_vec};

use crate::frames::byte_vec_views;

verus! {

/// Length of the circular receive region; the cursor wraps at this offset.
pub const RX_RING_LEN: usize = 8192;

/// Bias of the hardware read-pointer register: the register holds the ring
/// cursor minus 16 (wrapping), skipping the hardware pad.
pub const RX_CAPR_BIAS: u16 = 16;

/// Bound on how many frames one poll of the ring will walk before the
/// cursor must have reached the hardware write offset.
pub const RX_PARSE_FUEL: usize = 2048;

/// The little-endian 16-bit value stored at `off`.
pub open spec fn le_u16_at(ring: Seq<u8>, off: int) -> int {
    ring[off] + 256 * ring[off + 1]
}

/// The length field of the frame whose header starts at `cursor`: the
/// little-endian word 2 bytes into the header. It counts the 4-byte header
/// and the 4-byte CRC trailer together with the payload.
pub open spec fn header_len_at(ring: Seq<u8>, cursor: int) -> int {
    le_u16_at(ring, cursor + 2)
}

/// The payload of the frame at `cursor`: the bytes after the header, CRC
/// trailer stripped, so exactly `header_len_at - 4` bytes.
pub open spec fn payload_at(ring: Seq<u8>, cursor: int) -> Seq<u8> {
    ring.subrange(cursor + 4, cursor + header_len_at(ring, cursor))
}

/// `x` rounded up to the next multiple of 4.
pub open spec fn round_up4(x: int) -> int {
    (x + 3) / 4 * 4
}

/// Cursor position after consuming the frame at `cursor` with length field
/// `header`: advance past header, payload and trailer, round up to a 4-byte
/// boundary, wrap modulo the ring length.
pub open spec fn next_cursor(cursor: int, header: int) -> int {
    let a = round_up4(cursor + header + 4);
    if a >= RX_RING_LEN {
        a - RX_RING_LEN
    } else {
        a
    }
}

/// The frame at `cursor` lies within the allocated buffer and its successor
/// cursor is back inside the ring.
pub open spec fn step_ok(ring: Seq<u8>, cursor: int) -> bool {
    &&& 0 <= cursor < RX_RING_LEN
    &&& cursor + 4 <= ring.len()
    &&& header_len_at(ring, cursor) >= 4
    &&& cursor + header_len_at(ring, cursor) <= ring.len()
    &&& next_cursor(cursor, header_len_at(ring, cursor)) < RX_RING_LEN
}

/// Walking the ring from `cursor` reaches the hardware write offset `cbr`
/// within `fuel` well-formed frames.
pub open spec fn frames_ok(ring: Seq<u8>, cursor: int, cbr: int, fuel: nat) -> bool
    decreases fuel,
{
    if cursor == cbr {
        true
    } else if fuel == 0 {
        false
    } else {
        step_ok(ring, cursor) && frames_ok(
            ring,
            next_cursor(cursor, header_len_at(ring, cursor)),
            cbr,
            (fuel - 1) as nat,
        )
    }
}

/// The payloads of the frames between `cursor` and `cbr`, in ring order.
pub open spec fn parsed_frames(ring: Seq<u8>, cursor: int, cbr: int, fuel: nat) -> Seq<Seq<u8>>
    decreases fuel,
{
    if cursor == cbr || fuel == 0 {
        Seq::empty()
    } else {
        seq![payload_at(ring, cursor)] + parsed_frames(
            ring,
            next_cursor(cursor, header_len_at(ring, cursor)),
            cbr,
            (fuel - 1) as nat,
        )
    }
}

/// Every well-formed frame's payload is its length field minus the 4 CRC
/// trailer bytes: header and trailer are stripped before delivery.
pub proof fn lemma_payload_len(ring: Seq<u8>, cursor: int)
    requires
        step_ok(ring, cursor),
    ensures
        payload_at(ring, cursor).len() == header_len_at(ring, cursor) - 4,
{
}

/// Extracts all frames between the driver cursor `capr` and the hardware
/// write offset `cbr`, returning the payload copies in ring order together
/// with the final cursor, which is exactly `cbr`.
pub fn parse_ring(ring: &Vec<u8>, capr: usize, cbr: usize) -> (r: (Vec<Vec<u8>>, usize))
    requires
        RX_RING_LEN <= ring@.len() <= 65536,
        capr < RX_RING_LEN,
        cbr < RX_RING_LEN,
        frames_ok(ring@, capr as int, cbr as int, RX_PARSE_FUEL as nat),
    ensures
        byte_vec_views(r.0@) =~= parsed_frames(ring@, capr as int, cbr as int, RX_PARSE_FUEL as nat),
        r.1 == cbr,
{
    let mut out: Vec<Vec<u8>> = Vec::new();
    let mut cursor: usize = capr;
    let ghost mut fuel: nat = RX_PARSE_FUEL as nat;
    while cursor != cbr
        invariant
            cursor < RX_RING_LEN,
            cbr < RX_RING_LEN,
            RX_RING_LEN <= ring@.len() <= 65536,
            frames_ok(ring@, cursor as int, cbr as int, fuel),
            parsed_frames(ring@, capr as int, cbr as int, RX_PARSE_FUEL as nat) =~= byte_vec_views(
                out@,
            ) + parsed_frames(ring@, cursor as int, cbr as int, fuel),
        decreases fuel,
    {
        let header = ring[cursor + 2] as usize + 256 * (ring[cursor + 3] as usize);
        let payload = slice_to_vec(slice_subrange(ring.as_slice(), cursor + 4, cursor + header));
        let ghost out_pre = byte_vec_views(out@);
        out.push(payload);
        proof {
            assert(byte_vec_views(out@) =~= out_pre.push(payload_at(ring@, cursor as int)));
        }
        let mut advanced: usize = (cursor + header + 4 + 3) / 4 * 4;
        if advanced >= RX_RING_LEN {
            advanced = advanced - RX_RING_LEN;
        }
        proof {
            assert(advanced == next_cursor(cursor as int, header as int));
            assert(parsed_frames(ring@, cursor as int, cbr as int, fuel) =~= seq![
                payload_at(ring@, cursor as int),
            ] + parsed_frames(ring@, advanced as int, cbr as int, (fuel - 1) as nat));
            fuel = (fuel - 1) as nat;
        }
        cursor = advanced;
        proof {
            assert(parsed_frames(ring@, capr as int, cbr as int, RX_PARSE_FUEL as nat)
                =~= byte_vec_views(out@) + parsed_frames(ring@, cursor as int, cbr as int, fuel));
        }
    }
    (out, cursor)
}

/// The value programmed into the hardware read-pointer register for a ring
/// cursor: the cursor minus the 16-byte pad bias, wrapping as a 16-bit
/// register does.
pub fn capr_register_value(cursor: u16) -> (r: u16)
    ensures
        cursor >= RX_CAPR_BIAS ==> r == cursor - RX_CAPR_BIAS,
        cursor < RX_CAPR_BIAS ==> r == cursor + 65536 - RX_CAPR_BIAS,
{
    if cursor >= RX_CAPR_BIAS {
        cursor - RX_CAPR_BIAS
    } else {
        cursor + (65536 - RX_CAPR_BIAS as u32) as u16
    }
}

/// The ring cursor for a value read from the hardware read-pointer
/// register: the register plus the 16-byte pad bias, wrapping at 16 bits.
pub fn cursor_from_register(capr_reg: u16) -> (r: u16)
    ensures
        capr_reg + RX_CAPR_BIAS <= 65535 ==> r == capr_reg + RX_CAPR_BIAS,
        capr_reg + RX_CAPR_BIAS > 65535 ==> r == capr_reg + RX_CAPR_BIAS - 65536,
{
    if capr_reg <= 65535 - RX_CAPR_BIAS {
        capr_reg + RX_CAPR_BIAS
    } else {
        capr_reg - (65536 - RX_CAPR_BIAS as u32) as u16
    }
}

} // verus!
