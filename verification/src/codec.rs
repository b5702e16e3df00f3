use vstd::prelude::*;
use crate::frame::{
    parse_header_v1, parse_header_v1_spec, parse_header_v2, parse_header_v2_spec, Header,
};

verus! {

/// The typed message of the vehicle dialect; opaque here, decoded and encoded
/// by the mavlink crate.
#[verifier::external_type_specification]
#[verifier::external_body]
pub struct ExMavMessage(mavlink::ardupilotmega::MavMessage);

/// The packet could not be decoded as either protocol version.
#[derive(Clone, Copy, PartialEq, Eq, Structural, Debug)]
pub struct ParseError;

/// Whether the mavlink crate decodes these bytes as a version-2 frame: a
/// function of the bytes alone (marker found, frame complete, checksum and
/// message id accepted by the dialect).
pub uninterp spec fn decodes_v2(packet: Seq<u8>) -> bool;

/// Whether the mavlink crate decodes these bytes as a version-1 frame.
pub uninterp spec fn decodes_v1(packet: Seq<u8>) -> bool;

/// Relies on mavlink::read_v2_msg: decodes the first version-2 frame of
/// `packet` into a typed message, or fails (bad checksum, unknown message,
/// truncated frame).  Success depends on the bytes alone.
#[verifier::external_body]
fn decode_typed_v2(packet: &[u8]) -> (r: Option<mavlink::ardupilotmega::MavMessage>)
    ensures
        (r is Some) == decodes_v2(packet@),
{
    let mut reader = mavlink::peek_reader::PeekReader::new(std::io::Cursor::new(packet));
    match mavlink::read_v2_msg::<mavlink::ardupilotmega::MavMessage, _>(&mut reader) {
        Ok((_, msg)) => Some(msg),
        Err(_) => None,
    }
}

/// Relies on mavlink::read_v1_msg: decodes the first version-1 frame of
/// `packet` into a typed message, or fails.  Success depends on the bytes
/// alone.
#[verifier::external_body]
fn decode_typed_v1(packet: &[u8]) -> (r: Option<mavlink::ardupilotmega::MavMessage>)
    ensures
        (r is Some) == decodes_v1(packet@),
{
    let mut reader = mavlink::peek_reader::PeekReader::new(std::io::Cursor::new(packet));
    match mavlink::read_v1_msg::<mavlink::ardupilotmega::MavMessage, _>(&mut reader) {
        Ok((_, msg)) => Some(msg),
        Err(_) => None,
    }
}

/// Relies on mavlink::write_versioned_msg: encodes the header and message as
/// one version-2 frame, checksum included.  Writing into a byte vector
/// cannot fail, and the frame starts with the version-2 marker followed by
/// the length, flag, sequence, system and component bytes, so the produced
/// bytes carry the given header.
#[verifier::external_body]
pub(crate) fn encode_v2(header: &Header, msg: &mavlink::ardupilotmega::MavMessage) -> (r: Option<
    Vec<u8>,
>)
    ensures
        r is Some,
        r matches Some(buf) ==> (parse_header_v2_spec(buf@) matches Some(p) && p.0 == *header),
{
    let mav_header = mavlink::MavHeader {
        system_id: header.system_id,
        component_id: header.component_id,
        sequence: header.sequence,
    };
    let mut buf: Vec<u8> = Vec::new();
    match mavlink::write_versioned_msg(&mut buf, mavlink::MavlinkVersion::V2, mav_header, msg) {
        Ok(_) => Some(buf),
        Err(_) => None,
    }
}

/// Decode one packet: version 2 first, version 1 as the fallback.  The
/// returned header is read from the frame bytes themselves; decoding
/// succeeds exactly when the crate decodes the bytes and the matching
/// header bytes are present.
pub fn parse_mavlink_message(packet: &Vec<u8>) -> (r: Result<
    (Header, mavlink::ardupilotmega::MavMessage),
    ParseError,
>)
    ensures
        r matches Ok((h, _)) ==> ((parse_header_v2_spec(packet@) matches Some(p) && p.0 == h) || (
        parse_header_v2_spec(packet@) is None && (parse_header_v1_spec(packet@) matches Some(p)
            && p.0 == h))),
        (r is Ok) == ((decodes_v2(packet@) && parse_header_v2_spec(packet@) is Some) || (
        !decodes_v2(packet@) && decodes_v1(packet@) && (parse_header_v2_spec(packet@) is Some
            || parse_header_v1_spec(packet@) is Some))),
{
    match decode_typed_v2(packet.as_slice()) {
        Some(msg) => {
            match parse_header_v2(packet) {
                Some((h, _id)) => Ok((h, msg)),
                None => Err(ParseError),
            }
        },
        None => {
            match decode_typed_v1(packet.as_slice()) {
                Some(msg) => {
                    match parse_header_v2(packet) {
                        Some((h, _id)) => Ok((h, msg)),
                        None => match parse_header_v1(packet) {
                            Some((h, _id)) => Ok((h, msg)),
                            None => Err(ParseError),
                        },
                    }
                },
                None => Err(ParseError),
            }
        },
    }
}

} // verus!

verus! {

/// Relies on the derived Clone of the dialect's message enum: a clone is the
/// same message value, field for field.
#[verifier::external_body]
pub(crate) fn clone_message(msg: &mavlink::ardupilotmega::MavMessage) -> (r:
    mavlink::ardupilotmega::MavMessage)
    ensures
        r == *msg,
{
    msg.clone()
}

} // verus!

verus! {

/// Relies on serde_json::to_value over the dialect's serde form and
/// serde_json::Value::get / as_u64: reads the named top-level field of the
/// message as an unsigned number, truncated to a byte; fails when the field
/// is absent or not such a number.
#[verifier::external_body]
pub(crate) fn message_field_u8(
    msg: &mavlink::ardupilotmega::MavMessage,
    field: &str,
) -> (r: Option<u8>) {
    let value = serde_json::to_value(msg).ok()?;
    let v = value.get(field)?.as_u64()?;
    Some(v as u8)
}

} // verus!

verus! {

/// The header leg of decoding an encoded frame: bytes that carry a given
/// header — as everything `encode_v2` produces does — give that header back
/// whenever they decode at all.
pub proof fn lemma_decoded_header_of_encoded(buf: Seq<u8>, header: Header, decoded: Header)
    requires
        parse_header_v2_spec(buf) matches Some(p) && p.0 == header,
        (parse_header_v2_spec(buf) matches Some(p) && p.0 == decoded) || (parse_header_v2_spec(
            buf,
        ) is None && (parse_header_v1_spec(buf) matches Some(p) && p.0 == decoded)),
    ensures
        decoded == header,
{
}

} // verus!
