//! A decoded telemetry message with the verdict of its checksum.

use vstd::prelude::*;

verus! {

/// The bytes that the error-correcting decoder hands back: the message, its
/// checksum, and in the last place the decoder's verdict.
pub const DECODED_LEN: usize = 34;

/// The verdict of the error-correcting decoder on a message whose checksum
/// holds.
pub const FEC_DECODE_CRC_OK: u8 = 0x80;

#[derive(Debug)]
pub struct Packet {
    pub crc_match: bool,
    pub data: [u8; 34],
}

impl Packet {
    /// The packet for what the error-correcting decoder handed back: the
    /// checksum holds exactly if the last byte is `FEC_DECODE_CRC_OK`.
    pub fn from_decoded(decoded: [u8; 34]) -> (packet: Packet)
        ensures
            packet.data == decoded,
            packet.crc_match == (decoded@[DECODED_LEN - 1] == FEC_DECODE_CRC_OK),
    {
        let crc_match: bool = decoded[DECODED_LEN - 1] == FEC_DECODE_CRC_OK;
        Packet { crc_match, data: decoded }
    }
}

} // verus!
