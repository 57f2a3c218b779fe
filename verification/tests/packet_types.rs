use rocket_radio::packet::Packet;
use rocket_radio::packet_types::{decode, DecodedPacket};

fn packet(ptype: u8, crc_match: bool) -> Packet {
    let mut data = [0u8; 34];
    for (i, d) in data.iter_mut().enumerate() {
        *d = (i as u8).wrapping_mul(7).wrapping_add(3);
    }
    data[0] = 0x34;
    data[1] = 0x12;
    data[2] = 0xe8;
    data[3] = 0x03;
    data[4] = ptype;
    Packet { crc_match, data }
}

#[test]
fn every_record_begins_with_serial_tick_and_type() {
    for ptype in [0u8, 1, 4, 5, 6, 9, 200] {
        let decoded = decode(&packet(ptype, true));
        let (serial, tick, t) = match decoded {
            DecodedPacket::SensorPacket(p) => (p.serial, p.tick, p.ptype),
            DecodedPacket::ConfigPacket(p) => (p.serial, p.tick, p.ptype),
            DecodedPacket::GPSPacket(p) => (p.serial, p.tick, p.ptype),
            DecodedPacket::SatellitePacket(p) => (p.serial, p.tick, p.ptype),
            DecodedPacket::KalmanVoltagePacket(p) => (p.serial, p.tick, p.ptype),
            DecodedPacket::UnknownPacket(p) => (p.serial, p.tick, p.ptype),
        };
        assert_eq!(serial, 0x1234);
        assert_eq!(tick, 1000);
        assert_eq!(t, ptype);
    }
}

#[test]
fn type_byte_picks_the_kind_of_record() {
    assert!(matches!(decode(&packet(1, true)), DecodedPacket::SensorPacket(_)));
    assert!(matches!(decode(&packet(4, true)), DecodedPacket::ConfigPacket(_)));
    assert!(matches!(decode(&packet(5, true)), DecodedPacket::GPSPacket(_)));
    assert!(matches!(decode(&packet(6, true)), DecodedPacket::SatellitePacket(_)));
    assert!(matches!(decode(&packet(9, true)), DecodedPacket::KalmanVoltagePacket(_)));
    for other in [0u8, 2, 3, 7, 8, 10, 255] {
        assert!(matches!(decode(&packet(other, true)), DecodedPacket::UnknownPacket(_)));
    }
}

#[test]
fn checksum_verdict_is_carried_over() {
    for ptype in [0u8, 1, 4, 5, 6, 9] {
        assert!(decode(&packet(ptype, true)).crc_match());
        assert!(!decode(&packet(ptype, false)).crc_match());
    }
}

#[test]
fn sensor_record_fields() {
    let mut p = packet(1, true);
    let words: [i16; 13] =
        [-2, 1000, -1234, 3700, 5, -6, 160, -32, 12345, 9999, -1, i16::MIN, i16::MAX];
    p.data[5] = 3;
    for (k, w) in words.iter().enumerate() {
        let b = w.to_le_bytes();
        p.data[6 + 2 * k] = b[0];
        p.data[7 + 2 * k] = b[1];
    }
    match decode(&p) {
        DecodedPacket::SensorPacket(s) => {
            assert_eq!(s.state, 3);
            assert_eq!(s.accel, -2);
            assert_eq!(s.pres, 1000);
            assert_eq!(s.temp, -1234);
            assert_eq!(s.v_batt, 3700);
            assert_eq!(s.sense_d, 5);
            assert_eq!(s.sense_m, -6);
            assert_eq!(s.acceleration, 160);
            assert_eq!(s.speed, -32);
            assert_eq!(s.height, 12345);
            assert_eq!(s.ground_press, 9999);
            assert_eq!(s.ground_accel, -1);
            assert_eq!(s.accel_plus_g, i16::MIN);
            assert_eq!(s.accel_minus_g, i16::MAX);
            assert!(s.crc);
        }
        _ => panic!("a sensor record was sent"),
    }
}

#[test]
fn config_record_fields() {
    let mut p = packet(4, false);
    p.data[5] = 0x2a;
    p.data[6] = 0x07;
    p.data[7] = 0x01;
    p.data[8] = 1;
    p.data[9] = 8;
    p.data[10] = 0x05;
    p.data[11] = 0x00;
    p.data[12] = 0xfa;
    p.data[13] = 0x00;
    p.data[14] = 0x00;
    p.data[15] = 0x20;
    p.data[16..24].copy_from_slice(b"KD7SQG\0\0");
    p.data[24..32].copy_from_slice(b"1.9.7\0\0\0");
    match decode(&p) {
        DecodedPacket::ConfigPacket(c) => {
            assert_eq!(c.device_type, 0x2a);
            assert_eq!(c.flight, 0x0107);
            assert_eq!(c.config_major, 1);
            assert_eq!(c.config_minor, 8);
            assert_eq!(c.apogee_delay, 5);
            assert_eq!(c.main_deploy, 250);
            assert_eq!(c.flight_log_max, 0x2000);
            assert_eq!(c.callsign, "KD7SQG\0\0");
            assert_eq!(c.version, "1.9.7\0\0\0");
            assert!(!c.crc);
        }
        _ => panic!("a configuration record was sent"),
    }
}

#[test]
fn text_that_is_no_text_reads_err() {
    let mut p = packet(4, true);
    p.data[16..24].copy_from_slice(&[b'A', b'B', 0xff, b'C', b'D', b'E', b'F', b'G']);
    p.data[24..32].copy_from_slice(&[0xc3, 0xa9, b'1', b'2', b'3', b'4', b'5', b'6']);
    match decode(&p) {
        DecodedPacket::ConfigPacket(c) => {
            assert_eq!(c.callsign, "ERR");
            assert_eq!(c.version, "\u{e9}123456");
        }
        _ => panic!("a configuration record was sent"),
    }
    p.data[24..32].copy_from_slice(&[b'1', b'2', b'3', b'4', b'5', b'6', b'7', 0xc3]);
    match decode(&p) {
        DecodedPacket::ConfigPacket(c) => assert_eq!(c.version, "ERR"),
        _ => panic!("a configuration record was sent"),
    }
}

#[test]
fn gps_record_fields() {
    let mut p = packet(5, true);
    p.data[5] = 0b0110_1101;
    p.data[6..8].copy_from_slice(&(-120i16).to_le_bytes());
    p.data[8..12].copy_from_slice(&(473_512_345i32).to_le_bytes());
    p.data[12..16].copy_from_slice(&(-1_221_234_567i32).to_le_bytes());
    p.data[16] = 24;
    p.data[17] = 10;
    p.data[18] = 28;
    p.data[19] = 23;
    p.data[20] = 59;
    p.data[21] = 58;
    p.data[22] = 11;
    p.data[23] = 7;
    p.data[24] = 9;
    p.data[25] = 3;
    p.data[26..28].copy_from_slice(&(54321u16).to_le_bytes());
    p.data[28..30].copy_from_slice(&(-250i16).to_le_bytes());
    p.data[30] = 179;
    match decode(&p) {
        DecodedPacket::GPSPacket(g) => {
            assert_eq!(g.nsats, 5);
            assert!(g.valid);
            assert!(!g.running);
            assert!(g.date_valid);
            assert!(g.course_valid);
            assert_eq!(g.altitude, -120);
            assert_eq!(g.latitude, 473_512_345);
            assert_eq!(g.longitude, -1_221_234_567);
            assert_eq!(g.year, 2024);
            assert_eq!(g.month, 10);
            assert_eq!(g.day, 28);
            assert_eq!(g.hour, 23);
            assert_eq!(g.minute, 59);
            assert_eq!(g.second, 58);
            assert_eq!(g.pdop, 11);
            assert_eq!(g.hdop, 7);
            assert_eq!(g.vdop, 9);
            assert_eq!(g.mode, 3);
            assert_eq!(g.ground_speed, 54321);
            assert_eq!(g.climb_rate, -250);
            assert_eq!(g.course, 358);
        }
        _ => panic!("a position record was sent"),
    }
}

#[test]
fn gps_flags_are_single_bits() {
    let mut p = packet(5, true);
    p.data[5] = 0x10;
    match decode(&p) {
        DecodedPacket::GPSPacket(g) => {
            assert_eq!(g.nsats, 0);
            assert!(!g.valid && g.running && !g.date_valid && !g.course_valid);
        }
        _ => panic!("a position record was sent"),
    }
    p.data[5] = 0x87;
    p.data[16] = 255;
    p.data[30] = 255;
    match decode(&p) {
        DecodedPacket::GPSPacket(g) => {
            assert_eq!(g.nsats, 7);
            assert!(!g.valid && !g.running && !g.date_valid && !g.course_valid);
            assert_eq!(g.year, 2255);
            assert_eq!(g.course, 510);
        }
        _ => panic!("a position record was sent"),
    }
}

#[test]
fn satellite_record_fields() {
    let mut p = packet(6, true);
    p.data[5] = 12;
    for i in 0..24 {
        p.data[6 + i] = 100 + i as u8;
    }
    match decode(&p) {
        DecodedPacket::SatellitePacket(s) => {
            assert_eq!(s.channels, 12);
            let expected: Vec<u8> = (100..124).collect();
            assert_eq!(s.sats.to_vec(), expected);
        }
        _ => panic!("a satellite record was sent"),
    }
}

#[test]
fn kalman_voltage_record_fields() {
    let mut p = packet(9, true);
    p.data[5] = 6;
    p.data[6..8].copy_from_slice(&(4100i16).to_le_bytes());
    p.data[8..10].copy_from_slice(&(-3i16).to_le_bytes());
    p.data[10..16].copy_from_slice(&[1, 2, 3, 4, 5, 250]);
    p.data[16..20].copy_from_slice(&(-101_325i32).to_le_bytes());
    p.data[20..22].copy_from_slice(&(77i16).to_le_bytes());
    p.data[22..24].copy_from_slice(&(-78i16).to_le_bytes());
    p.data[24..26].copy_from_slice(&(79i16).to_le_bytes());
    p.data[26..28].copy_from_slice(&(-1600i16).to_le_bytes());
    p.data[28..30].copy_from_slice(&(3200i16).to_le_bytes());
    p.data[30..32].copy_from_slice(&(-15i16).to_le_bytes());
    match decode(&p) {
        DecodedPacket::KalmanVoltagePacket(k) => {
            assert_eq!(k.state, 6);
            assert_eq!(k.v_batt, 4100);
            assert_eq!(k.v_pyro, -3);
            assert_eq!(k.sense, [1, 2, 3, 4, 5, 250]);
            assert_eq!(k.ground_pres, -101_325);
            assert_eq!(k.ground_accel, 77);
            assert_eq!(k.accel_plus_g, -78);
            assert_eq!(k.accel_minus_g, 79);
            assert_eq!(k.acceleration, -1600);
            assert_eq!(k.speed, 3200);
            assert_eq!(k.height, -15);
        }
        _ => panic!("a record of flight state and voltages was sent"),
    }
}

#[test]
fn numbers_are_little_endian() {
    let mut p = packet(0, true);
    p.data[0] = 0x01;
    p.data[1] = 0x00;
    p.data[2] = 0x00;
    p.data[3] = 0x01;
    match decode(&p) {
        DecodedPacket::UnknownPacket(u) => {
            assert_eq!(u.serial, 1);
            assert_eq!(u.tick, 256);
        }
        _ => panic!("a record of unknown type was sent"),
    }
}
