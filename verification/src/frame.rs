use vstd::prelude::*;
use vstd::slice::slice_to_vec;

verus! {

/// Start-of-frame marker of a version-2 packet.
pub const MARKER_V2: u8 = 0xFD;

/// Start-of-frame marker of a version-1 packet.
pub const MARKER_V1: u8 = 0xFE;

/// Bytes a version-2 frame holds besides its payload: marker, length,
/// incompatibility and compatibility flags, sequence, system, component,
/// three message-id bytes, and the two checksum bytes.
pub const V2_OVERHEAD: usize = 12;

/// Bytes a version-1 frame holds besides its payload.
pub const V1_OVERHEAD: usize = 8;

/// Metadata of one packet: who sent it and its place in the sender's stream.
#[derive(Clone, Copy, PartialEq, Eq, Structural, Debug)]
pub struct Header {
    pub system_id: u8,
    pub component_id: u8,
    pub sequence: u8,
}

/// Index of the first occurrence of `marker` in `b`, if any.
pub open spec fn first_marker_index(b: Seq<u8>, marker: u8) -> Option<int>
    decreases b.len(),
{
    if b.len() == 0 {
        None
    } else if b[0] == marker {
        Some(0int)
    } else {
        match first_marker_index(b.drop_first(), marker) {
            Some(j) => Some(j + 1),
            None => None,
        }
    }
}

pub proof fn lemma_first_marker_index(b: Seq<u8>, marker: u8)
    ensures
        match first_marker_index(b, marker) {
            Some(j) => 0 <= j < b.len() && b[j] == marker && forall|l: int|
                0 <= l < j ==> b[l] != marker,
            None => forall|l: int| 0 <= l < b.len() ==> b[l] != marker,
        },
    decreases b.len(),
{
    if b.len() > 0 && b[0] != marker {
        let rest = b.drop_first();
        lemma_first_marker_index(rest, marker);
        match first_marker_index(rest, marker) {
            Some(j2) => {
                assert(rest[j2] == b[j2 + 1]);
                assert forall|l: int| 0 <= l < j2 + 1 implies b[l] != marker by {
                    if l > 0 {
                        assert(rest[l - 1] == b[l]);
                    }
                }
            },
            None => {
                assert forall|l: int| 0 <= l < b.len() implies b[l] != marker by {
                    if l > 0 {
                        assert(rest[l - 1] == b[l]);
                    }
                }
            },
        }
    }
}

/// Bounds of the first complete version-2 frame in `b`: the index of its
/// marker and the index one past its last checksum byte.  `None` while the
/// buffer holds no marker or the frame is still incomplete.
pub open spec fn frame_bounds(b: Seq<u8>) -> Option<(int, int)> {
    match first_marker_index(b, MARKER_V2) {
        Some(s) => if b.len() >= s + 2 && b.len() >= s + V2_OVERHEAD + b[s + 1] {
            Some((s, s + V2_OVERHEAD + b[s + 1]))
        } else {
            None
        },
        None => None,
    }
}

/// Take the first complete version-2 frame out of `pending`, leaving what
/// follows it.  Bytes before the frame's marker are discarded with the frame;
/// the buffer is unchanged while it holds no complete frame yet.
pub fn take_frame(pending: &mut Vec<u8>) -> (r: Option<Vec<u8>>)
    ensures
        match r {
            Some(frame) => frame_bounds(old(pending)@) matches Some((s, e)) && frame@ == old(
                pending,
            )@.subrange(s, e) && final(pending)@ == old(pending)@.skip(e),
            None => frame_bounds(old(pending)@) is None && final(pending)@ == old(pending)@,
        },
{
    proof {
        lemma_first_marker_index(pending@, MARKER_V2);
    }
    let n = pending.len();
    let mut i: usize = 0;
    while i < n
        invariant
            i <= n,
            n == pending@.len(),
            pending@ == old(pending)@,
            forall|l: int| 0 <= l < i ==> pending@[l] != MARKER_V2,
        decreases n - i,
    {
        proof {
            lemma_first_marker_index(pending@, MARKER_V2);
        }
        if pending[i] == MARKER_V2 {
            proof {
                assert(first_marker_index(pending@, MARKER_V2) == Some(i as int));
            }
            if n - i < 2 {
                return None;
            }
            let payload_len = pending[i + 1] as usize;
            if n - i < V2_OVERHEAD + payload_len {
                return None;
            }
            let end = i + V2_OVERHEAD + payload_len;
            let frame = slice_to_vec(&pending.as_slice()[i..end]);
            let tail = pending.split_off(end);
            *pending = tail;
            return Some(frame);
        }
        i += 1;
    }
    None
}

} // verus!

verus! {

/// Header fields of a version-2 frame whose marker stands at `s`: the
/// sequence, system and component bytes follow the two flag bytes.
pub open spec fn v2_header_view(b: Seq<u8>, s: int) -> Header {
    Header { system_id: b[s + 5], component_id: b[s + 6], sequence: b[s + 4] }
}

/// Message id of a version-2 frame whose marker stands at `s`: three bytes,
/// least significant first.
pub open spec fn v2_message_id_view(b: Seq<u8>, s: int) -> int {
    b[s + 7] + 256 * b[s + 8] + 65536 * b[s + 9]
}

/// Header and message id of the first version-2 frame of `b`, when the ten
/// header bytes are present.
pub open spec fn parse_header_v2_spec(b: Seq<u8>) -> Option<(Header, int)> {
    match first_marker_index(b, MARKER_V2) {
        Some(s) => if b.len() >= s + 10 {
            Some((v2_header_view(b, s), v2_message_id_view(b, s)))
        } else {
            None
        },
        None => None,
    }
}

/// Header fields of a version-1 frame whose marker stands at `s`.
pub open spec fn v1_header_view(b: Seq<u8>, s: int) -> Header {
    Header { system_id: b[s + 3], component_id: b[s + 4], sequence: b[s + 2] }
}

/// Header and message id of the first version-1 frame of `b`, when the six
/// header bytes are present.
pub open spec fn parse_header_v1_spec(b: Seq<u8>) -> Option<(Header, int)> {
    match first_marker_index(b, MARKER_V1) {
        Some(s) => if b.len() >= s + 6 {
            Some((v1_header_view(b, s), b[s + 5] as int))
        } else {
            None
        },
        None => None,
    }
}

/// Read the header and message id of the first version-2 frame of `packet`.
pub fn parse_header_v2(packet: &Vec<u8>) -> (r: Option<(Header, u32)>)
    ensures
        match r {
            Some((h, id)) => parse_header_v2_spec(packet@) == Some((h, id as int)),
            None => parse_header_v2_spec(packet@) is None,
        },
{
    proof {
        lemma_first_marker_index(packet@, MARKER_V2);
    }
    let n = packet.len();
    let mut i: usize = 0;
    while i < n
        invariant
            i <= n,
            n == packet@.len(),
            forall|l: int| 0 <= l < i ==> packet@[l] != MARKER_V2,
        decreases n - i,
    {
        proof {
            lemma_first_marker_index(packet@, MARKER_V2);
        }
        if packet[i] == MARKER_V2 {
            proof {
                assert(first_marker_index(packet@, MARKER_V2) == Some(i as int));
            }
            if n - i < 10 {
                return None;
            }
            let h = Header {
                system_id: packet[i + 5],
                component_id: packet[i + 6],
                sequence: packet[i + 4],
            };
            let id: u32 = packet[i + 7] as u32 + 256 * (packet[i + 8] as u32) + 65536 * (packet[i
                + 9] as u32);
            return Some((h, id));
        }
        i += 1;
    }
    None
}

/// Read the header and message id of the first version-1 frame of `packet`.
pub fn parse_header_v1(packet: &Vec<u8>) -> (r: Option<(Header, u32)>)
    ensures
        match r {
            Some((h, id)) => parse_header_v1_spec(packet@) == Some((h, id as int)),
            None => parse_header_v1_spec(packet@) is None,
        },
{
    proof {
        lemma_first_marker_index(packet@, MARKER_V1);
    }
    let n = packet.len();
    let mut i: usize = 0;
    while i < n
        invariant
            i <= n,
            n == packet@.len(),
            forall|l: int| 0 <= l < i ==> packet@[l] != MARKER_V1,
        decreases n - i,
    {
        proof {
            lemma_first_marker_index(packet@, MARKER_V1);
        }
        if packet[i] == MARKER_V1 {
            proof {
                assert(first_marker_index(packet@, MARKER_V1) == Some(i as int));
            }
            if n - i < 6 {
                return None;
            }
            let h = Header {
                system_id: packet[i + 3],
                component_id: packet[i + 4],
                sequence: packet[i + 2],
            };
            let id: u32 = packet[i + 5] as u32;
            return Some((h, id));
        }
        i += 1;
    }
    None
}

/// Byte layout of a version-2 frame built from its parts; the message id is
/// given as its three bytes, least significant first.
pub open spec fn v2_frame_bytes(
    h: Header,
    id_lo: u8,
    id_mid: u8,
    id_hi: u8,
    incompat: u8,
    compat: u8,
    payload: Seq<u8>,
    ck_low: u8,
    ck_high: u8,
) -> Seq<u8> {
    seq![
        MARKER_V2,
        payload.len() as u8,
        incompat,
        compat,
        h.sequence,
        h.system_id,
        h.component_id,
        id_lo,
        id_mid,
        id_hi,
    ] + payload + seq![ck_low, ck_high]
}

/// Parsing a built version-2 frame returns the parts it was built from: the
/// frame spans the whole byte string and the header and message id read back
/// unchanged, for every payload short enough for the length byte.
pub proof fn lemma_frame_round_trip(
    h: Header,
    id_lo: u8,
    id_mid: u8,
    id_hi: u8,
    incompat: u8,
    compat: u8,
    payload: Seq<u8>,
    ck_low: u8,
    ck_high: u8,
)
    requires
        payload.len() < 256,
    ensures
        ({
            let b = v2_frame_bytes(h, id_lo, id_mid, id_hi, incompat, compat, payload, ck_low, ck_high);
            &&& frame_bounds(b) == Some((0int, b.len() as int))
            &&& b.len() == V2_OVERHEAD + payload.len()
            &&& parse_header_v2_spec(b) == Some(
                (h, id_lo + 256 * id_mid + 65536 * id_hi),
            )
            &&& b.subrange(10, 10 + payload.len() as int) == payload
        }),
{
    let b = v2_frame_bytes(h, id_lo, id_mid, id_hi, incompat, compat, payload, ck_low, ck_high);
    assert(b[0] == MARKER_V2);
    assert(first_marker_index(b, MARKER_V2) == Some(0int));
    assert(b[1] == payload.len() as u8);
    assert(b.len() == 12 + payload.len());
    assert(b.subrange(10, 10 + payload.len() as int) =~= payload);
}

} // verus!
