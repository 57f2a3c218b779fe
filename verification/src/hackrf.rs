//! What goes over the wire to a HackRF One, and what the answers mean.
//!
//! The radio is driven by vendor control transfers: a request code, two
//! 16-bit fields and at times a few bytes of data. This module builds the
//! fields and the bytes, checks arguments and answers, and decides on the
//! receive gain. The transfers themselves are made elsewhere.

use crate::nibble::pairs;
use vstd::prelude::*;

verus! {

/// The largest gain setting.
pub const MAX_GAIN_SETTING: i16 = 36;

/// The smallest gain setting.
pub const MIN_GAIN_SETTING: i16 = 0;

/// The reading below which the gain is raised.
pub const QUIET_READING: i8 = 40;

/// The reading above which the gain is lowered.
pub const LOUD_READING: i8 = 90;

/// The requests that the radio understands.
#[derive(Copy, Clone, Debug, PartialEq, Eq, Structural)]
pub enum Request {
    SetTransceiverMode,
    Max2837Write,
    Max2837Read,
    Si5351CWrite,
    Si5351CRead,
    SampleRateSet,
    BasebandFilterBandwidthSet,
    Rffc5071Write,
    Rffc5071Read,
    SpiflashErase,
    SpiflashWrite,
    SpiflashRead,
    BoardIdRead,
    VersionStringRead,
    SetFreq,
    AmpEnable,
    BoardPartidSerialnoRead,
    SetLnaGain,
    SetVgaGain,
    SetTxvgaGain,
    AntennaEnable,
    SetFreqExplicit,
    UsbWcidVendorReq,
    InitSweep,
    OperacakeGetBoards,
    OperacakeSetPorts,
    SetHwSyncMode,
    Reset,
    OperacakeSetRanges,
    ClkoutEnable,
    SpiflashStatus,
    SpiflashClearStatus,
    OperacakeGpioTest,
    CpldChecksum,
    UiEnable,
}

/// The code of a request on the wire.
pub open spec fn code_of(request: Request) -> u8 {
    match request {
        Request::SetTransceiverMode => 1,
        Request::Max2837Write => 2,
        Request::Max2837Read => 3,
        Request::Si5351CWrite => 4,
        Request::Si5351CRead => 5,
        Request::SampleRateSet => 6,
        Request::BasebandFilterBandwidthSet => 7,
        Request::Rffc5071Write => 8,
        Request::Rffc5071Read => 9,
        Request::SpiflashErase => 10,
        Request::SpiflashWrite => 11,
        Request::SpiflashRead => 12,
        Request::BoardIdRead => 14,
        Request::VersionStringRead => 15,
        Request::SetFreq => 16,
        Request::AmpEnable => 17,
        Request::BoardPartidSerialnoRead => 18,
        Request::SetLnaGain => 19,
        Request::SetVgaGain => 20,
        Request::SetTxvgaGain => 21,
        Request::AntennaEnable => 23,
        Request::SetFreqExplicit => 24,
        Request::UsbWcidVendorReq => 25,
        Request::InitSweep => 26,
        Request::OperacakeGetBoards => 27,
        Request::OperacakeSetPorts => 28,
        Request::SetHwSyncMode => 29,
        Request::Reset => 30,
        Request::OperacakeSetRanges => 31,
        Request::ClkoutEnable => 32,
        Request::SpiflashStatus => 33,
        Request::SpiflashClearStatus => 34,
        Request::OperacakeGpioTest => 35,
        Request::CpldChecksum => 36,
        Request::UiEnable => 37,
    }
}

impl Request {
    /// The code of the request on the wire.
    pub fn code(self) -> (code: u8)
        ensures
            code == code_of(self),
    {
        match self {
            Request::SetTransceiverMode => 1,
            Request::Max2837Write => 2,
            Request::Max2837Read => 3,
            Request::Si5351CWrite => 4,
            Request::Si5351CRead => 5,
            Request::SampleRateSet => 6,
            Request::BasebandFilterBandwidthSet => 7,
            Request::Rffc5071Write => 8,
            Request::Rffc5071Read => 9,
            Request::SpiflashErase => 10,
            Request::SpiflashWrite => 11,
            Request::SpiflashRead => 12,
            Request::BoardIdRead => 14,
            Request::VersionStringRead => 15,
            Request::SetFreq => 16,
            Request::AmpEnable => 17,
            Request::BoardPartidSerialnoRead => 18,
            Request::SetLnaGain => 19,
            Request::SetVgaGain => 20,
            Request::SetTxvgaGain => 21,
            Request::AntennaEnable => 23,
            Request::SetFreqExplicit => 24,
            Request::UsbWcidVendorReq => 25,
            Request::InitSweep => 26,
            Request::OperacakeGetBoards => 27,
            Request::OperacakeSetPorts => 28,
            Request::SetHwSyncMode => 29,
            Request::Reset => 30,
            Request::OperacakeSetRanges => 31,
            Request::ClkoutEnable => 32,
            Request::SpiflashStatus => 33,
            Request::SpiflashClearStatus => 34,
            Request::OperacakeGpioTest => 35,
            Request::CpldChecksum => 36,
            Request::UiEnable => 37,
        }
    }
}

/// What the transceiver can be set to do.
#[derive(Copy, Clone, Debug, PartialEq, Eq, Structural)]
pub enum TranscieverMode {
    Off,
    Receive,
    Transmit,
    Ss,
    CpldUpdate,
    RxSweep,
}

impl TranscieverMode {
    /// The number of the mode on the wire: the modes count up from zero.
    pub fn code(self) -> (code: u16)
        ensures
            code == match self {
                TranscieverMode::Off => 0u16,
                TranscieverMode::Receive => 1u16,
                TranscieverMode::Transmit => 2u16,
                TranscieverMode::Ss => 3u16,
                TranscieverMode::CpldUpdate => 4u16,
                TranscieverMode::RxSweep => 5u16,
            },
    {
        match self {
            TranscieverMode::Off => 0,
            TranscieverMode::Receive => 1,
            TranscieverMode::Transmit => 2,
            TranscieverMode::Ss => 3,
            TranscieverMode::CpldUpdate => 4,
            TranscieverMode::RxSweep => 5,
        }
    }
}

/// The direction of a control transfer.
#[derive(Copy, Clone, Debug, PartialEq, Eq, Structural)]
pub enum Direction {
    In,
    Out,
}

/// What can go wrong short of the transfer itself.
#[derive(Copy, Clone, Debug, PartialEq, Eq, Structural)]
pub enum Error {
    /// A control transfer moved fewer bytes than it should have.
    CtrlTransfer { dir: Direction, actual: usize, expected: usize },
    /// The firmware is older than the request needs.
    Version { device: Version, min: Version },
    /// An argument was out of range.
    Argument,
}

/// A firmware version: major, minor and sub-minor.
#[derive(Copy, Clone, Eq, PartialEq, Debug, Structural)]
pub struct Version(pub u8, pub u8, pub u8);

/// The marker of a radio whose mode is not known.
#[derive(Debug)]
pub struct UnknownMode;

/// The version that the descriptor field `bcd` stands for: the high byte is
/// the major, the two nibbles of the low byte the minor and the sub-minor.
pub open spec fn version_of(bcd: u16) -> Version {
    Version(((bcd & 0xFF00) >> 8) as u8, ((bcd & 0x00F0) >> 4) as u8, (bcd & 0x000F) as u8)
}

impl Version {
    pub fn from_bcd(bcd: u16) -> (version: Version)
        ensures
            version == version_of(bcd),
            version.1 < 16,
            version.2 < 16,
    {
        assert(((bcd & 0xFF00) >> 8) < 256 && ((bcd & 0x00F0) >> 4) < 16 && (bcd & 0x000F) < 16)
            by (bit_vector);
        Version(((bcd & 0xFF00) >> 8) as u8, ((bcd & 0x00F0) >> 4) as u8, (bcd & 0x000F) as u8)
    }

    pub fn major(&self) -> (major: u8)
        ensures
            major == self.0,
    {
        self.0
    }

    pub fn minor(&self) -> (minor: u8)
        ensures
            minor == self.1,
    {
        self.1
    }

    pub fn sub_minor(&self) -> (sub_minor: u8)
        ensures
            sub_minor == self.2,
    {
        self.2
    }

    /// The place of the version among all versions: major first.
    pub open spec fn rank(self) -> int {
        self.0 * 65536 + self.1 * 256 + self.2
    }

    /// The place of the version among all versions, as a number to compare.
    pub fn as_u32(&self) -> (rank: u32)
        ensures
            rank == self.rank(),
    {
        self.0 as u32 * 65536 + self.1 as u32 * 256 + self.2 as u32
    }
}

impl From<u16> for Version {
    fn from(value: u16) -> (version: Self) {
        Version::from_bcd(value)
    }
}

impl vstd::std_specs::convert::FromSpecImpl<u16> for Version {
    open spec fn obeys_from_spec() -> bool {
        true
    }

    open spec fn from_spec(value: u16) -> Self {
        version_of(value)
    }
}

/// Whether a radio with firmware `device` can serve a request that needs
/// `min`.
pub fn check_api_version(device: Version, min: Version) -> (checked: Result<(), Error>)
    ensures
        device.rank() >= min.rank() ==> checked.is_ok(),
        device.rank() < min.rank() ==> checked == Err::<(), Error>(Error::Version { device, min }),
{
    if device.as_u32() >= min.as_u32() {
        Ok(())
    } else {
        Err(Error::Version { device, min })
    }
}

/// Whether a control transfer moved all its bytes.
pub fn check_transfer(dir: Direction, actual: usize, expected: usize) -> (checked: Result<
    (),
    Error,
>)
    ensures
        actual == expected ==> checked.is_ok(),
        actual != expected ==> checked == Err::<(), Error>(
            Error::CtrlTransfer { dir, actual, expected },
        ),
{
    if actual != expected {
        Err(Error::CtrlTransfer { dir, actual, expected })
    } else {
        Ok(())
    }
}

/// Whether the radio took a gain: it answers with a byte that is not zero.
pub fn check_gain_reply(reply: u8) -> (checked: Result<(), Error>)
    ensures
        reply != 0 ==> checked.is_ok(),
        reply == 0 ==> checked == Err::<(), Error>(Error::Argument),
{
    if reply == 0 {
        Err(Error::Argument)
    } else {
        Ok(())
    }
}

/// The index field for a gain of the low-noise amplifier: 0 to 40 dB in
/// steps of 8, rounded down.
pub fn lna_gain_index(gain: u16) -> (index: Result<u16, Error>)
    ensures
        gain <= 40 ==> index == Ok::<u16, Error>((gain - gain % 8) as u16),
        gain > 40 ==> index == Err::<u16, Error>(Error::Argument),
{
    if gain > 40 {
        Err(Error::Argument)
    } else {
        assert(gain & !0x07u16 == gain - gain % 8) by (bit_vector);
        Ok(gain & !0x07)
    }
}

/// The index field for a gain of the variable-gain amplifier: 0 to 62 dB in
/// steps of 2, rounded down.
pub fn vga_gain_index(gain: u16) -> (index: Result<u16, Error>)
    ensures
        gain <= 62 ==> index == Ok::<u16, Error>((gain - gain % 2) as u16),
        gain > 62 ==> index == Err::<u16, Error>(Error::Argument),
{
    if gain > 62 {
        Err(Error::Argument)
    } else {
        assert(gain & !0b1u16 == gain - gain % 2) by (bit_vector);
        Ok(gain & !0b1)
    }
}

/// The index field for a gain of the transmit amplifier: 0 to 47 dB.
pub fn txvga_gain_index(gain: u16) -> (index: Result<u16, Error>)
    ensures
        gain <= 47 ==> index == Ok::<u16, Error>(gain),
        gain > 47 ==> index == Err::<u16, Error>(Error::Argument),
{
    if gain > 47 {
        Err(Error::Argument)
    } else {
        Ok(gain)
    }
}

/// The four bytes of `x`, the low one first.
pub open spec fn le_bytes(x: u32) -> Seq<u8> {
    seq![
        (x % 256) as u8,
        (x / 256 % 256) as u8,
        (x / 65536 % 256) as u8,
        (x / 16777216 % 256) as u8,
    ]
}

/// `x` where it fits in 32 bits, else the largest number that does.
pub open spec fn clamped(x: int) -> u32 {
    if x <= u32::MAX {
        x as u32
    } else {
        u32::MAX
    }
}

/// The bytes `a` and then the bytes `b`, each low byte first.
fn two_words(a: u32, b: u32) -> (bytes: [u8; 8])
    ensures
        bytes@ == le_bytes(a) + le_bytes(b),
{
    assert((a & 0xFF) == a % 256 && ((a >> 8) & 0xFF) == a / 256 % 256 && ((a >> 16) & 0xFF) == a
        / 65536 % 256 && ((a >> 24) & 0xFF) == a / 16777216 % 256) by (bit_vector);
    assert((b & 0xFF) == b % 256 && ((b >> 8) & 0xFF) == b / 256 % 256 && ((b >> 16) & 0xFF) == b
        / 65536 % 256 && ((b >> 24) & 0xFF) == b / 16777216 % 256) by (bit_vector);
    let bytes: [u8; 8] = [
        (a & 0xFF) as u8,
        ((a >> 8) & 0xFF) as u8,
        ((a >> 16) & 0xFF) as u8,
        ((a >> 24) & 0xFF) as u8,
        (b & 0xFF) as u8,
        ((b >> 8) & 0xFF) as u8,
        ((b >> 16) & 0xFF) as u8,
        ((b >> 24) & 0xFF) as u8,
    ];
    assert(bytes@ =~= le_bytes(a) + le_bytes(b));
    bytes
}

/// `x` where it fits in 32 bits, else the largest number that does.
fn clamp(x: u64) -> (r: u32)
    ensures
        r == clamped(x as int),
{
    if x <= 0xFFFF_FFFF {
        x as u32
    } else {
        0xFFFF_FFFF
    }
}

/// The data of a request to tune to `hz`: the whole megahertz and the hertz
/// that remain, each in 32 bits, low byte first. What does not fit in 32 bits
/// is sent as the largest number that does.
pub fn freq_params(hz: u64) -> (bytes: [u8; 8])
    ensures
        bytes@ == le_bytes(clamped(hz as int / 1_000_000)) + le_bytes(
            clamped(hz as int - clamped(hz as int / 1_000_000) * 1_000_000),
        ),
{
    let l_freq_mhz: u32 = clamp(hz / 1_000_000);
    let l_freq_hz: u32 = clamp(hz - l_freq_mhz as u64 * 1_000_000);
    two_words(l_freq_mhz, l_freq_hz)
}

/// The data of a request to sample at `hz / div`: the two numbers, low byte
/// first.
pub fn sample_rate_params(hz: u32, div: u32) -> (bytes: [u8; 8])
    ensures
        bytes@ == le_bytes(hz) + le_bytes(div),
{
    two_words(hz, div)
}

/// The two fields of a request for a baseband filter of `hz`: the low half
/// and the high half.
pub fn bandwidth_params(hz: u32) -> (fields: (u16, u16))
    ensures
        fields.0 == hz % 65536,
        fields.1 == hz / 65536,
{
    assert((hz & 0xFFFF) == hz % 65536 && (hz >> 16) == hz / 65536 && (hz >> 16) < 65536)
        by (bit_vector);
    ((hz & 0xFFFF) as u16, (hz >> 16) as u16)
}

/// The gains that a setting stands for, low-noise amplifier first: the
/// settings up to 5 raise the first in steps of 8 dB, those above raise the
/// second in steps of 2 dB, up to 62.
pub open spec fn gains_of(idx: i16) -> (i16, i16) {
    if idx < 0 {
        (0i16, 0i16)
    } else if idx <= 5 {
        ((idx * 8) as i16, 0i16)
    } else if idx <= 5 + 31 {
        (40i16, ((idx - 5) * 2) as i16)
    } else {
        (40i16, 62i16)
    }
}

pub fn gain_index(idx: i16) -> (gains: (i16, i16))
    ensures
        gains == gains_of(idx),
        0 <= gains.0 <= 40,
        0 <= gains.1 <= 62,
{
    if idx < 0 {
        (0, 0)
    } else if idx <= 5 {
        (idx * 8, 0)
    } else if idx <= 5 + 31 {
        (40, (idx - 5) * 2)
    } else {
        (40, 62)
    }
}

/// The setting to change to after a stretch in which `max_reading` was the
/// strongest reading, if any: one up after a quiet stretch, one down after a
/// loud one, within the settings there are.
pub open spec fn gain_change(current: i16, max_reading: i8) -> Option<i16> {
    if max_reading < QUIET_READING {
        Some(
            if current + 1 <= MAX_GAIN_SETTING {
                (current + 1) as i16
            } else {
                MAX_GAIN_SETTING
            },
        )
    } else if max_reading > LOUD_READING {
        Some(
            if current - 1 >= MIN_GAIN_SETTING {
                (current - 1) as i16
            } else {
                MIN_GAIN_SETTING
            },
        )
    } else {
        None
    }
}

pub fn adjusted_gain(current: i16, max_reading: i8) -> (change: Option<i16>)
    ensures
        change == gain_change(current, max_reading),
{
    if max_reading < QUIET_READING {
        if current < MAX_GAIN_SETTING {
            Some(current + 1)
        } else {
            Some(MAX_GAIN_SETTING)
        }
    } else if max_reading > LOUD_READING {
        if current > MIN_GAIN_SETTING {
            Some(current - 1)
        } else {
            Some(MIN_GAIN_SETTING)
        }
    } else {
        None
    }
}

/// The byte `b` as a signed reading.
pub open spec fn reading_of(b: u8) -> i8 {
    if b < 128 {
        b as i8
    } else {
        (b - 256) as i8
    }
}

/// Whether `peak` is the strongest of `start` and the readings in the
/// complete pairs of `buffer`.
pub open spec fn is_peak(start: i8, buffer: Seq<u8>, peak: i8) -> bool {
    &&& peak >= start
    &&& forall|i: int| 0 <= i < 2 * (buffer.len() / 2) ==> peak >= reading_of(#[trigger] buffer[i])
    &&& peak == start || exists|i: int|
        0 <= i < 2 * (buffer.len() / 2) && peak == reading_of(#[trigger] buffer[i])
}

/// The byte `b` as a signed reading.
fn reading(b: u8) -> (r: i8)
    ensures
        r == reading_of(b),
{
    if b < 128 {
        b as i8
    } else {
        (b as i16 - 256) as i8
    }
}

/// The readings in `buffer`, in-phase and quadrature, pair by pair. A last
/// byte without a partner is left out.
pub fn iq_pairs(buffer: &[u8]) -> (readings: Vec<(i8, i8)>)
    ensures
        readings@.len() == buffer@.len() / 2,
        forall|k: int|
            0 <= k < readings@.len() ==> #[trigger] readings@[k] == (
                reading_of(buffer@[2 * k]),
                reading_of(buffer@[2 * k + 1]),
            ),
{
    let two: Vec<(u8, u8)> = pairs(buffer);
    let mut readings: Vec<(i8, i8)> = Vec::new();
    let mut k: usize = 0;
    while k < two.len()
        invariant
            k <= two@.len(),
            two@.len() == buffer@.len() / 2,
            forall|j: int|
                0 <= j < two@.len() ==> #[trigger] two@[j] == (buffer@[2 * j], buffer@[2 * j + 1]),
            readings@.len() == k,
            forall|j: int|
                0 <= j < k ==> #[trigger] readings@[j] == (
                    reading_of(buffer@[2 * j]),
                    reading_of(buffer@[2 * j + 1]),
                ),
        decreases two@.len() - k,
    {
        let (i, q) = two[k];
        readings.push((reading(i), reading(q)));
        k += 1;
    }
    readings
}

/// The strongest of `start` and the readings in `buffer`, which holds pairs
/// of one in-phase and one quadrature byte.
pub fn peak_reading(start: i8, buffer: &[u8]) -> (peak: i8)
    ensures
        is_peak(start, buffer@, peak),
{
    let two: Vec<(u8, u8)> = pairs(buffer);
    let mut peak: i8 = start;
    let mut k: usize = 0;
    while k < two.len()
        invariant
            k <= two@.len(),
            two@.len() == buffer@.len() / 2,
            forall|j: int|
                0 <= j < two@.len() ==> #[trigger] two@[j] == (buffer@[2 * j], buffer@[2 * j + 1]),
            peak >= start,
            forall|i: int| 0 <= i < 2 * k ==> peak >= reading_of(#[trigger] buffer@[i]),
            peak == start || exists|i: int|
                0 <= i < 2 * k && peak == reading_of(#[trigger] buffer@[i]),
        decreases two@.len() - k,
    {
        let (i, q) = two[k];
        let ri: i8 = reading(i);
        let rq: i8 = reading(q);
        let ghost earlier = peak;
        if ri > peak {
            peak = ri;
        }
        if rq > peak {
            peak = rq;
        }
        proof {
            assert(buffer@[2 * k] == i && buffer@[2 * k + 1] == q);
            if peak != start {
                if peak == earlier {
                    let w = choose|w: int| 0 <= w < 2 * k && earlier == reading_of(#[trigger] buffer@[w]);
                    assert(0 <= w < 2 * (k + 1) && peak == reading_of(buffer@[w]));
                } else if peak == rq {
                    assert(peak == reading_of(buffer@[2 * k + 1]));
                } else {
                    assert(peak == reading_of(buffer@[2 * k as int]));
                }
            }
        }
        k += 1;
    }
    peak
}

/// The number that four bytes stand for, the low one first.
pub open spec fn le_value(bytes: Seq<u8>) -> int {
    bytes[0] + 256 * bytes[1] + 65536 * bytes[2] + 16777216 * bytes[3]
}

/// The four bytes of a number stand for that number.
pub proof fn lemma_le_bytes_keep_the_number(x: u32)
    ensures
        le_bytes(x).len() == 4,
        le_value(le_bytes(x)) == x,
{
}

/// A frequency whose megahertz fit in 32 bits is sent whole: the megahertz
/// and the hertz that are sent add up to it, and the hertz are fewer than a
/// million.
pub proof fn lemma_frequency_is_sent_whole(hz: u64)
    requires
        hz / 1_000_000 <= u32::MAX,
    ensures
        clamped(hz as int / 1_000_000) * 1_000_000 + clamped(
            hz as int - clamped(hz as int / 1_000_000) * 1_000_000,
        ) == hz,
        clamped(hz as int - clamped(hz as int / 1_000_000) * 1_000_000) < 1_000_000,
{
}

/// The gains of every setting are gains that the radio takes: within the
/// range of each amplifier and on its steps.
pub proof fn lemma_settings_give_valid_gains(idx: i16)
    ensures
        0 <= gains_of(idx).0 <= 40,
        gains_of(idx).0 % 8 == 0,
        0 <= gains_of(idx).1 <= 62,
        gains_of(idx).1 % 2 == 0,
{
}

/// A higher setting never means less gain.
pub proof fn lemma_gain_grows_with_the_setting(a: i16, b: i16)
    requires
        a <= b,
    ensures
        gains_of(a).0 <= gains_of(b).0,
        gains_of(a).1 <= gains_of(b).1,
{
}

/// The setting that is changed to stays within the settings there are.
pub proof fn lemma_gain_change_stays_in_range(current: i16, max_reading: i8)
    requires
        MIN_GAIN_SETTING <= current <= MAX_GAIN_SETTING,
    ensures
        match gain_change(current, max_reading) {
            Some(setting) => MIN_GAIN_SETTING <= setting <= MAX_GAIN_SETTING && (setting - current
                == 1 || current - setting == 1 || setting == current),
            None => QUIET_READING <= max_reading <= LOUD_READING,
        },
{
}

/// Versions are ordered by major, then minor, then sub-minor.
pub proof fn lemma_versions_are_ordered_by_fields(a: Version, b: Version)
    requires
        a.1 < 16,
        a.2 < 16,
        b.1 < 16,
        b.2 < 16,
    ensures
        a.rank() < b.rank() <==> a.0 < b.0 || (a.0 == b.0 && (a.1 < b.1 || (a.1 == b.1 && a.2
            < b.2))),
        a.rank() == b.rank() <==> a == b,
{
}

} // verus!
