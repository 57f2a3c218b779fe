//! The telemetry records that a decoded message holds.
//!
//! Every record begins with the sender's serial number, a tick count and a
//! type byte; the type decides what the bytes that follow mean. Numbers of
//! more than one byte are little-endian. Scaled readings keep the integer
//! that was sent; each field says its unit.

use crate::packet::Packet;
use byteorder::{ByteOrder, LittleEndian};
use vstd::prelude::*;
use vstd::utf8::{decode_utf8, valid_utf8};

verus! {

/// The type byte of a sensor record.
pub const TYPE_SENSOR: u8 = 1;

/// The type byte of a configuration record.
pub const TYPE_CONFIG: u8 = 4;

/// The type byte of a position record.
pub const TYPE_GPS: u8 = 5;

/// The type byte of a satellite record.
pub const TYPE_SATELLITE: u8 = 6;

/// The type byte of a record of filtered flight state and voltages.
pub const TYPE_KALMAN_VOLTAGE: u8 = 9;

#[derive(Clone, Debug)]
pub enum DecodedPacket {
    SensorPacket(SensorPacket),
    ConfigPacket(ConfigPacket),
    GPSPacket(GPSPacket),
    SatellitePacket(SatellitePacket),
    KalmanVoltagePacket(KalmanVoltagePacket),
    UnknownPacket(UnknownPacket),
}

#[derive(Copy, Clone, Debug)]
pub struct UnknownPacket {
    pub serial: u16,
    /// In hundredths of a second.
    pub tick: u16,
    pub ptype: u8,
    pub crc: bool,
}

#[derive(Copy, Clone, Debug)]
pub struct SensorPacket {
    pub serial: u16,
    /// In hundredths of a second.
    pub tick: u16,
    pub ptype: u8,
    pub state: u8,
    pub accel: i16,
    pub pres: i16,
    /// In hundredths of a degree.
    pub temp: i16,
    pub v_batt: i16,
    pub sense_d: i16,
    pub sense_m: i16,
    /// In sixteenths of a metre per second squared.
    pub acceleration: i16,
    /// In sixteenths of a metre per second.
    pub speed: i16,
    pub height: i16,
    pub ground_press: i16,
    pub ground_accel: i16,
    pub accel_plus_g: i16,
    pub accel_minus_g: i16,
    pub crc: bool,
}

#[derive(Clone, Debug)]
pub struct ConfigPacket {
    pub serial: u16,
    /// In hundredths of a second.
    pub tick: u16,
    pub ptype: u8,
    pub device_type: u8,
    pub flight: u16,
    pub config_major: u8,
    pub config_minor: u8,
    pub apogee_delay: u16,
    pub main_deploy: u16,
    pub flight_log_max: u16,
    pub callsign: String,
    pub version: String,
    pub crc: bool,
}

#[derive(Copy, Clone, Debug)]
pub struct GPSPacket {
    pub serial: u16,
    /// In hundredths of a second.
    pub tick: u16,
    pub ptype: u8,
    pub nsats: u8,
    pub valid: bool,
    pub running: bool,
    pub date_valid: bool,
    pub course_valid: bool,
    pub altitude: i16,
    /// In ten-millionths of a degree.
    pub latitude: i32,
    /// In ten-millionths of a degree.
    pub longitude: i32,
    pub year: usize,
    pub month: u8,
    pub day: u8,
    pub hour: u8,
    pub minute: u8,
    pub second: u8,
    /// In fifths.
    pub pdop: u8,
    /// In fifths.
    pub hdop: u8,
    /// In fifths.
    pub vdop: u8,
    pub mode: u8,
    /// In hundredths of a metre per second.
    pub ground_speed: u16,
    /// In hundredths of a metre per second.
    pub climb_rate: i16,
    /// In degrees.
    pub course: u16,
    pub crc: bool,
}

#[derive(Copy, Clone, Debug)]
pub struct SatellitePacket {
    pub serial: u16,
    /// In hundredths of a second.
    pub tick: u16,
    pub ptype: u8,
    pub channels: u8,
    pub sats: [u8; 24],
    pub crc: bool,
}

#[derive(Copy, Clone, Debug)]
pub struct KalmanVoltagePacket {
    pub serial: u16,
    /// In hundredths of a second.
    pub tick: u16,
    pub ptype: u8,
    pub state: u8,
    pub v_batt: i16,
    pub v_pyro: i16,
    pub sense: [u8; 6],
    pub ground_pres: i32,
    pub ground_accel: i16,
    pub accel_plus_g: i16,
    pub accel_minus_g: i16,
    /// In sixteenths of a metre per second squared.
    pub acceleration: i16,
    /// In sixteenths of a metre per second.
    pub speed: i16,
    pub height: i16,
    pub crc: bool,
}

/// The unsigned number in the two bytes of `data` from `at` on.
pub open spec fn u16_at(data: Seq<u8>, at: int) -> int {
    data[at] + 256 * data[at + 1]
}

/// The signed number in the two bytes of `data` from `at` on.
pub open spec fn i16_at(data: Seq<u8>, at: int) -> int {
    if u16_at(data, at) < 0x8000 {
        u16_at(data, at)
    } else {
        u16_at(data, at) - 0x1_0000
    }
}

/// The unsigned number in the four bytes of `data` from `at` on.
pub open spec fn u32_at(data: Seq<u8>, at: int) -> int {
    data[at] + 256 * data[at + 1] + 65536 * data[at + 2] + 16777216 * data[at + 3]
}

/// The signed number in the four bytes of `data` from `at` on.
pub open spec fn i32_at(data: Seq<u8>, at: int) -> int {
    if u32_at(data, at) < 0x8000_0000 {
        u32_at(data, at)
    } else {
        u32_at(data, at) - 0x1_0000_0000
    }
}

/// The text in `bytes`, or `ERR` where they are no text.
pub open spec fn text_of(bytes: Seq<u8>) -> Seq<char> {
    if valid_utf8(bytes) {
        decode_utf8(bytes)
    } else {
        "ERR"@
    }
}

/// `ByteOrder::read_u16` of `LittleEndian` on the bytes from `at` on: the
/// first byte is the low one.
#[verifier::external_body]
fn read_u16(data: &[u8; 34], at: usize) -> (v: u16)
    requires
        at + 2 <= 34,
    ensures
        v == u16_at(data@, at as int),
{
    LittleEndian::read_u16(&data[at..])
}

/// `ByteOrder::read_i16` of `LittleEndian` on the bytes from `at` on: the
/// unsigned number, taken as two's complement.
#[verifier::external_body]
fn read_i16(data: &[u8; 34], at: usize) -> (v: i16)
    requires
        at + 2 <= 34,
    ensures
        v == i16_at(data@, at as int),
{
    LittleEndian::read_i16(&data[at..])
}

/// `ByteOrder::read_i32` of `LittleEndian` on the bytes from `at` on: the
/// unsigned number, taken as two's complement.
#[verifier::external_body]
fn read_i32(data: &[u8; 34], at: usize) -> (v: i32)
    requires
        at + 4 <= 34,
    ensures
        v == i32_at(data@, at as int),
{
    LittleEndian::read_i32(&data[at..])
}

/// `core::str::from_utf8`: the text that `bytes` encode, or nothing where
/// they are not valid UTF-8.
#[verifier::external_body]
fn utf8_text(bytes: &[u8]) -> (text: Option<&str>)
    ensures
        match text {
            Some(s) => valid_utf8(bytes@) && s@ == decode_utf8(bytes@),
            None => !valid_utf8(bytes@),
        },
{
    core::str::from_utf8(bytes).ok()
}

/// The text in the eight bytes of `data` from `at` on, or `ERR`.
fn text_at(data: &[u8; 34], at: usize) -> (text: String)
    requires
        at + 8 <= 34,
    ensures
        text@ == text_of(data@.subrange(at as int, at + 8)),
{
    let bytes: &[u8] = vstd::slice::slice_subrange(data.as_slice(), at, at + 8);
    match utf8_text(bytes) {
        Some(text) => text.to_owned(),
        None => "ERR".to_owned(),
    }
}

/// The `N` bytes of `data` from `at` on.
fn bytes_at<const N: usize>(data: &[u8; 34], at: usize) -> (out: [u8; N])
    requires
        at + N <= 34,
    ensures
        out@ == data@.subrange(at as int, at + N),
{
    let mut out: [u8; N] = [0u8; N];
    let mut i: usize = 0;
    while i < N
        invariant
            i <= N,
            at + N <= 34,
            forall|k: int| 0 <= k < i ==> out@[k] == data@[at + k],
        decreases N - i,
    {
        out[i] = data[at + i];
        i += 1;
    }
    assert(out@ =~= data@.subrange(at as int, at + N));
    out
}

/// The record of unknown type in `data`.
pub open spec fn unknown_of(data: Seq<u8>, crc: bool) -> UnknownPacket {
    UnknownPacket {
        serial: u16_at(data, 0) as u16,
        tick: u16_at(data, 2) as u16,
        ptype: data[4],
        crc,
    }
}

/// The sensor record in `data`.
pub open spec fn sensor_of(data: Seq<u8>, crc: bool) -> SensorPacket {
    SensorPacket {
        serial: u16_at(data, 0) as u16,
        tick: u16_at(data, 2) as u16,
        ptype: data[4],
        state: data[5],
        accel: i16_at(data, 6) as i16,
        pres: i16_at(data, 8) as i16,
        temp: i16_at(data, 10) as i16,
        v_batt: i16_at(data, 12) as i16,
        sense_d: i16_at(data, 14) as i16,
        sense_m: i16_at(data, 16) as i16,
        acceleration: i16_at(data, 18) as i16,
        speed: i16_at(data, 20) as i16,
        height: i16_at(data, 22) as i16,
        ground_press: i16_at(data, 24) as i16,
        ground_accel: i16_at(data, 26) as i16,
        accel_plus_g: i16_at(data, 28) as i16,
        accel_minus_g: i16_at(data, 30) as i16,
        crc,
    }
}

/// Whether `p` is the configuration record in `data`.
pub open spec fn is_config_of(data: Seq<u8>, crc: bool, p: ConfigPacket) -> bool {
    &&& p.serial == u16_at(data, 0)
    &&& p.tick == u16_at(data, 2)
    &&& p.ptype == data[4]
    &&& p.device_type == data[5]
    &&& p.flight == u16_at(data, 6)
    &&& p.config_major == data[8]
    &&& p.config_minor == data[9]
    &&& p.apogee_delay == u16_at(data, 10)
    &&& p.main_deploy == u16_at(data, 12)
    &&& p.flight_log_max == u16_at(data, 14)
    &&& p.callsign@ == text_of(data.subrange(16, 24))
    &&& p.version@ == text_of(data.subrange(24, 32))
    &&& p.crc == crc
}

/// The position record in `data`.
pub open spec fn gps_of(data: Seq<u8>, crc: bool) -> GPSPacket {
    GPSPacket {
        serial: u16_at(data, 0) as u16,
        tick: u16_at(data, 2) as u16,
        ptype: data[4],
        nsats: data[5] & 0x7,
        valid: data[5] & 0x8 != 0,
        running: data[5] & 0x10 != 0,
        date_valid: data[5] & 0x20 != 0,
        course_valid: data[5] & 0x40 != 0,
        altitude: i16_at(data, 6) as i16,
        latitude: i32_at(data, 8) as i32,
        longitude: i32_at(data, 12) as i32,
        year: (data[16] + 2000) as usize,
        month: data[17],
        day: data[18],
        hour: data[19],
        minute: data[20],
        second: data[21],
        pdop: data[22],
        hdop: data[23],
        vdop: data[24],
        mode: data[25],
        ground_speed: u16_at(data, 26) as u16,
        climb_rate: i16_at(data, 28) as i16,
        course: (data[30] * 2) as u16,
        crc,
    }
}

/// Whether `p` is the satellite record in `data`.
pub open spec fn is_satellite_of(data: Seq<u8>, crc: bool, p: SatellitePacket) -> bool {
    &&& p.serial == u16_at(data, 0)
    &&& p.tick == u16_at(data, 2)
    &&& p.ptype == data[4]
    &&& p.channels == data[5]
    &&& p.sats@ == data.subrange(6, 30)
    &&& p.crc == crc
}

/// Whether `p` is the record of flight state and voltages in `data`.
pub open spec fn is_kalman_voltage_of(data: Seq<u8>, crc: bool, p: KalmanVoltagePacket) -> bool {
    &&& p.serial == u16_at(data, 0)
    &&& p.tick == u16_at(data, 2)
    &&& p.ptype == data[4]
    &&& p.state == data[5]
    &&& p.v_batt == i16_at(data, 6)
    &&& p.v_pyro == i16_at(data, 8)
    &&& p.sense@ == data.subrange(10, 16)
    &&& p.ground_pres == i32_at(data, 16)
    &&& p.ground_accel == i16_at(data, 20)
    &&& p.accel_plus_g == i16_at(data, 22)
    &&& p.accel_minus_g == i16_at(data, 24)
    &&& p.acceleration == i16_at(data, 26)
    &&& p.speed == i16_at(data, 28)
    &&& p.height == i16_at(data, 30)
    &&& p.crc == crc
}

/// Whether `decoded` is the record in `data`, of the kind that the type byte
/// names.
pub open spec fn is_record_of(data: Seq<u8>, crc: bool, decoded: DecodedPacket) -> bool {
    match decoded {
        DecodedPacket::SensorPacket(p) => data[4] == TYPE_SENSOR && p == sensor_of(data, crc),
        DecodedPacket::ConfigPacket(p) => data[4] == TYPE_CONFIG && is_config_of(data, crc, p),
        DecodedPacket::GPSPacket(p) => data[4] == TYPE_GPS && p == gps_of(data, crc),
        DecodedPacket::SatellitePacket(p) => data[4] == TYPE_SATELLITE && is_satellite_of(
            data,
            crc,
            p,
        ),
        DecodedPacket::KalmanVoltagePacket(p) => data[4] == TYPE_KALMAN_VOLTAGE
            && is_kalman_voltage_of(data, crc, p),
        DecodedPacket::UnknownPacket(p) => data[4] != TYPE_SENSOR && data[4] != TYPE_CONFIG
            && data[4] != TYPE_GPS && data[4] != TYPE_SATELLITE && data[4] != TYPE_KALMAN_VOLTAGE
            && p == unknown_of(data, crc),
    }
}

impl DecodedPacket {
    /// Whether the checksum of the message held.
    pub open spec fn crc(self) -> bool {
        match self {
            DecodedPacket::SensorPacket(packet) => packet.crc,
            DecodedPacket::ConfigPacket(packet) => packet.crc,
            DecodedPacket::GPSPacket(packet) => packet.crc,
            DecodedPacket::SatellitePacket(packet) => packet.crc,
            DecodedPacket::KalmanVoltagePacket(packet) => packet.crc,
            DecodedPacket::UnknownPacket(packet) => packet.crc,
        }
    }

    pub fn crc_match(&self) -> (ok: bool)
        ensures
            ok == self.crc(),
    {
        match self {
            DecodedPacket::SensorPacket(packet) => packet.crc,
            DecodedPacket::ConfigPacket(packet) => packet.crc,
            DecodedPacket::GPSPacket(packet) => packet.crc,
            DecodedPacket::SatellitePacket(packet) => packet.crc,
            DecodedPacket::KalmanVoltagePacket(packet) => packet.crc,
            DecodedPacket::UnknownPacket(packet) => packet.crc,
        }
    }
}

/// The telemetry record in `packet`.
pub fn decode(packet: &Packet) -> (decoded: DecodedPacket)
    ensures
        is_record_of(packet.data@, packet.crc_match, decoded),
        decoded.crc() == packet.crc_match,
{
    let d: &[u8; 34] = &packet.data;
    let ptype: u8 = d[4];
    let serial: u16 = read_u16(d, 0);
    let tick: u16 = read_u16(d, 2);
    let crc: bool = packet.crc_match;
    if ptype == TYPE_SENSOR {
        DecodedPacket::SensorPacket(
            SensorPacket {
                serial,
                tick,
                ptype,
                state: d[5],
                accel: read_i16(d, 6),
                pres: read_i16(d, 8),
                temp: read_i16(d, 10),
                v_batt: read_i16(d, 12),
                sense_d: read_i16(d, 14),
                sense_m: read_i16(d, 16),
                acceleration: read_i16(d, 18),
                speed: read_i16(d, 20),
                height: read_i16(d, 22),
                ground_press: read_i16(d, 24),
                ground_accel: read_i16(d, 26),
                accel_plus_g: read_i16(d, 28),
                accel_minus_g: read_i16(d, 30),
                crc,
            },
        )
    } else if ptype == TYPE_CONFIG {
        let callsign: String = text_at(d, 16);
        let version: String = text_at(d, 24);
        DecodedPacket::ConfigPacket(
            ConfigPacket {
                serial,
                tick,
                ptype,
                device_type: d[5],
                flight: read_u16(d, 6),
                config_major: d[8],
                config_minor: d[9],
                apogee_delay: read_u16(d, 10),
                main_deploy: read_u16(d, 12),
                flight_log_max: read_u16(d, 14),
                callsign,
                version,
                crc,
            },
        )
    } else if ptype == TYPE_GPS {
        let packed: u8 = d[5];
        let year: usize = d[16] as usize + 2000;
        let course: u16 = d[30] as u16 * 2;
        DecodedPacket::GPSPacket(
            GPSPacket {
                serial,
                tick,
                ptype,
                nsats: packed & 0x7,
                valid: packed & 0x8 != 0,
                running: packed & 0x10 != 0,
                date_valid: packed & 0x20 != 0,
                course_valid: packed & 0x40 != 0,
                altitude: read_i16(d, 6),
                latitude: read_i32(d, 8),
                longitude: read_i32(d, 12),
                year,
                month: d[17],
                day: d[18],
                hour: d[19],
                minute: d[20],
                second: d[21],
                pdop: d[22],
                hdop: d[23],
                vdop: d[24],
                mode: d[25],
                ground_speed: read_u16(d, 26),
                climb_rate: read_i16(d, 28),
                course,
                crc,
            },
        )
    } else if ptype == TYPE_SATELLITE {
        let sats: [u8; 24] = bytes_at::<24>(d, 6);
        DecodedPacket::SatellitePacket(
            SatellitePacket { serial, tick, ptype, channels: d[5], sats, crc },
        )
    } else if ptype == TYPE_KALMAN_VOLTAGE {
        let sense: [u8; 6] = bytes_at::<6>(d, 10);
        DecodedPacket::KalmanVoltagePacket(
            KalmanVoltagePacket {
                serial,
                tick,
                ptype,
                state: d[5],
                v_batt: read_i16(d, 6),
                v_pyro: read_i16(d, 8),
                sense,
                ground_pres: read_i32(d, 16),
                ground_accel: read_i16(d, 20),
                accel_plus_g: read_i16(d, 22),
                accel_minus_g: read_i16(d, 24),
                acceleration: read_i16(d, 26),
                speed: read_i16(d, 28),
                height: read_i16(d, 30),
                crc,
            },
        )
    } else {
        DecodedPacket::UnknownPacket(UnknownPacket { serial, tick, ptype, crc })
    }
}

} // verus!
