//! Wire protocol of the Native Instruments Audio Kontrol 1 (USB 17cc:0815).
//!
//! The device exposes one vendor-specific interface. Alternate setting 0 has
//! the bulk command pipes on endpoint 1; alternate setting 1 adds the
//! isochronous audio pipes. The device is the clock master: every OUT packet
//! must have the same length as the IN packet it answers.
//!
//! The firmware ignores data toggle resets from SET_INTERFACE and
//! CLEAR_FEATURE(ENDPOINT_HALT), so each session must first repeat an
//! idempotent command such as [`get_device_info_request`] until it is answered.

use vstd::prelude::*;
use vstd::slice::slice_subrange;

use crate::bytes::{u16_from_le, u32_byte};

verus! {

pub const VENDOR_ID: u16 = 0x17cc;

pub const PRODUCT_ID: u16 = 0x0815;

pub const EP_CMD_OUT: u8 = 0x01;

pub const EP_CMD_IN: u8 = 0x81;

pub const EP_AUDIO_IN: u8 = 0x82;

pub const EP_AUDIO_OUT: u8 = 0x06;

pub const STREAMING_ALT_SETTING: u8 = 1;

pub const CMD_BUF_SIZE: usize = 64;

pub const MAX_PACKET_SIZE: usize = 512;

pub const CHANNELS_PER_STREAM: usize = 2;

/// Microframes of a high-speed bus in a second.
pub const MICROFRAMES_PER_SECOND: u32 = 8000;

/// Extra frames per microframe the device may send beyond the nominal rate.
pub const CLOCK_DRIFT_TOLERANCE: u32 = 5;

pub const DEPTH_24: u8 = 2;

#[derive(Clone, Copy, Debug, PartialEq, Eq, Structural)]
pub enum Command {
    GetDeviceInfo,
    ReadErp,
    ReadAnalog,
    ReadIo,
    WriteIo,
    MidiRead,
    MidiWrite,
    AudioParams,
    AutoMsg,
    DimmLeds,
}

impl Command {
    pub open spec fn code_spec(self) -> u8 {
        match self {
            Command::GetDeviceInfo => 0x01,
            Command::ReadErp => 0x02,
            Command::ReadAnalog => 0x03,
            Command::ReadIo => 0x04,
            Command::WriteIo => 0x05,
            Command::MidiRead => 0x06,
            Command::MidiWrite => 0x07,
            Command::AudioParams => 0x09,
            Command::AutoMsg => 0x0b,
            Command::DimmLeds => 0x0c,
        }
    }

    /// The byte that begins the command and its replies.
    pub fn code(self) -> (code: u8)
        ensures
            code == self.code_spec(),
    {
        match self {
            Command::GetDeviceInfo => 0x01,
            Command::ReadErp => 0x02,
            Command::ReadAnalog => 0x03,
            Command::ReadIo => 0x04,
            Command::WriteIo => 0x05,
            Command::MidiRead => 0x06,
            Command::MidiWrite => 0x07,
            Command::AudioParams => 0x09,
            Command::AutoMsg => 0x0b,
            Command::DimmLeds => 0x0c,
        }
    }
}

#[derive(Clone, Copy, Debug, PartialEq, Eq, Structural)]
pub enum SampleRate {
    Hz44100,
    Hz48000,
    Hz88200,
    Hz96000,
    Hz192000,
}

impl SampleRate {
    pub const ALL: [SampleRate; 5] = [
        SampleRate::Hz44100,
        SampleRate::Hz48000,
        SampleRate::Hz88200,
        SampleRate::Hz96000,
        SampleRate::Hz192000,
    ];

    pub open spec fn hz_spec(self) -> u32 {
        match self {
            SampleRate::Hz44100 => 44_100,
            SampleRate::Hz48000 => 48_000,
            SampleRate::Hz88200 => 88_200,
            SampleRate::Hz96000 => 96_000,
            SampleRate::Hz192000 => 192_000,
        }
    }

    /// Rate selector used by [`Command::AudioParams`]; not in ascending order.
    pub open spec fn code_spec(self) -> u8 {
        match self {
            SampleRate::Hz44100 => 0,
            SampleRate::Hz48000 => 1,
            SampleRate::Hz96000 => 2,
            SampleRate::Hz192000 => 3,
            SampleRate::Hz88200 => 4,
        }
    }

    pub fn hz(self) -> (hz: u32)
        ensures
            hz == self.hz_spec(),
    {
        match self {
            SampleRate::Hz44100 => 44_100,
            SampleRate::Hz48000 => 48_000,
            SampleRate::Hz88200 => 88_200,
            SampleRate::Hz96000 => 96_000,
            SampleRate::Hz192000 => 192_000,
        }
    }

    pub open spec fn from_hz_spec(hz: int) -> Option<SampleRate> {
        if hz == 44_100 {
            Some(SampleRate::Hz44100)
        } else if hz == 48_000 {
            Some(SampleRate::Hz48000)
        } else if hz == 88_200 {
            Some(SampleRate::Hz88200)
        } else if hz == 96_000 {
            Some(SampleRate::Hz96000)
        } else if hz == 192_000 {
            Some(SampleRate::Hz192000)
        } else {
            None
        }
    }

    pub fn from_hz(hz: u32) -> (rate: Option<SampleRate>)
        ensures
            rate == SampleRate::from_hz_spec(hz as int),
    {
        let all: [SampleRate; 5] = SampleRate::ALL;
        let mut i: usize = 0;
        while i < 5
            invariant
                i <= 5,
                all == SampleRate::ALL,
                forall|j: int| 0 <= j < i ==> (#[trigger] all@[j]).hz_spec() != hz,
            decreases 5 - i,
        {
            if all[i].hz() == hz {
                return Some(all[i]);
            }
            i = i + 1;
        }
        proof {
            assert(all@[0].hz_spec() != hz);
            assert(all@[1].hz_spec() != hz);
            assert(all@[2].hz_spec() != hz);
            assert(all@[3].hz_spec() != hz);
            assert(all@[4].hz_spec() != hz);
        }
        None
    }

    fn code(self) -> (code: u8)
        ensures
            code == self.code_spec(),
    {
        match self {
            SampleRate::Hz44100 => 0,
            SampleRate::Hz48000 => 1,
            SampleRate::Hz96000 => 2,
            SampleRate::Hz192000 => 3,
            SampleRate::Hz88200 => 4,
        }
    }
}

/// Reply payload of [`Command::GetDeviceInfo`].
#[derive(Clone, Copy, Debug, PartialEq, Eq, Structural)]
pub struct DeviceSpec {
    pub fw_version: u16,
    pub hw_subtype: u8,
    pub num_erp: u8,
    pub num_analog_in: u8,
    pub num_digital_in: u8,
    pub num_digital_out: u8,
    pub num_analog_audio_out: u8,
    pub num_analog_audio_in: u8,
    pub num_digital_audio_out: u8,
    pub num_digital_audio_in: u8,
    pub num_midi_out: u8,
    pub num_midi_in: u8,
    pub data_alignment: u8,
}

pub open spec fn larger(a: int, b: int) -> int {
    if a >= b {
        a
    } else {
        b
    }
}

fn max_u8(a: u8, b: u8) -> (c: u8)
    ensures
        c == larger(a as int, b as int),
{
    if a >= b {
        a
    } else {
        b
    }
}

impl DeviceSpec {
    pub const WIRE_SIZE: usize = 14;

    /// The specification in the first bytes of `b`.
    pub open spec fn parse_spec(b: Seq<u8>) -> Option<DeviceSpec> {
        if b.len() < 14 {
            None
        } else {
            Some(
                DeviceSpec {
                    fw_version: (b[0] + 256 * b[1]) as u16,
                    hw_subtype: b[2],
                    num_erp: b[3],
                    num_analog_in: b[4],
                    num_digital_in: b[5],
                    num_digital_out: b[6],
                    num_analog_audio_out: b[7],
                    num_analog_audio_in: b[8],
                    num_digital_audio_out: b[9],
                    num_digital_audio_in: b[10],
                    num_midi_out: b[11],
                    num_midi_in: b[12],
                    data_alignment: b[13],
                },
            )
        }
    }

    pub fn parse(b: &[u8]) -> (spec: Option<DeviceSpec>)
        ensures
            spec == DeviceSpec::parse_spec(b@),
    {
        if b.len() < DeviceSpec::WIRE_SIZE {
            return None;
        }
        Some(
            DeviceSpec {
                fw_version: u16_from_le(b[0], b[1]),
                hw_subtype: b[2],
                num_erp: b[3],
                num_analog_in: b[4],
                num_digital_in: b[5],
                num_digital_out: b[6],
                num_analog_audio_out: b[7],
                num_analog_audio_in: b[8],
                num_digital_audio_out: b[9],
                num_digital_audio_in: b[10],
                num_midi_out: b[11],
                num_midi_in: b[12],
                data_alignment: b[13],
            },
        )
    }

    pub open spec fn capture_streams_spec(self) -> int {
        larger(self.num_analog_audio_in as int, self.num_digital_audio_in as int) / 2
    }

    pub open spec fn playback_streams_spec(self) -> int {
        larger(self.num_analog_audio_out as int, self.num_digital_audio_out as int) / 2
    }

    pub open spec fn streams_spec(self) -> int {
        larger(self.capture_streams_spec(), self.playback_streams_spec())
    }

    pub open spec fn wire_bytes_spec(self) -> int {
        if self.data_alignment >= 2 {
            4
        } else {
            3
        }
    }

    /// The bytes of the frames that a microframe at `rate` may bring, before
    /// the endpoint's limit.
    pub open spec fn unbounded_packet_bytes(self, rate: SampleRate) -> int {
        (rate.hz_spec() as int / 8000 + 5) * self.wire_bytes_spec() * 2 * self.streams_spec()
    }

    pub open spec fn max_packet_bytes_spec(self, rate: SampleRate) -> int {
        if self.unbounded_packet_bytes(rate) <= 512 {
            self.unbounded_packet_bytes(rate)
        } else {
            512
        }
    }

    pub fn capture_streams(&self) -> (streams: usize)
        ensures
            streams == self.capture_streams_spec(),
            streams <= 127,
    {
        max_u8(self.num_analog_audio_in, self.num_digital_audio_in) as usize / CHANNELS_PER_STREAM
    }

    pub fn playback_streams(&self) -> (streams: usize)
        ensures
            streams == self.playback_streams_spec(),
            streams <= 127,
    {
        max_u8(self.num_analog_audio_out, self.num_digital_audio_out) as usize / CHANNELS_PER_STREAM
    }

    /// Stereo streams carried in each packet, in both directions.
    pub fn streams(&self) -> (streams: usize)
        ensures
            streams == self.streams_spec(),
            streams <= 127,
    {
        let capture: usize = self.capture_streams();
        let playback: usize = self.playback_streams();
        if capture >= playback {
            capture
        } else {
            playback
        }
    }

    /// Bytes each sample occupies on the wire; alignment modes 2 and 3 add a check byte.
    pub fn wire_bytes_per_sample(&self) -> (bytes: usize)
        ensures
            bytes == self.wire_bytes_spec(),
    {
        if self.data_alignment >= 2 {
            4
        } else {
            3
        }
    }

    /// Largest isochronous packet the device may send at `rate`.
    pub fn max_packet_bytes(&self, rate: SampleRate) -> (bytes: u16)
        ensures
            bytes == self.max_packet_bytes_spec(rate),
            bytes <= MAX_PACKET_SIZE,
    {
        let frames: usize = (rate.hz() / 8000 + CLOCK_DRIFT_TOLERANCE) as usize;
        let wire: usize = self.wire_bytes_per_sample();
        let streams: usize = self.streams();
        assert(frames * wire <= 116 && 0 <= frames * wire) by (nonlinear_arith)
            requires
                0 <= frames <= 29,
                0 <= wire <= 4,
        ;
        let frame_bytes: usize = frames * wire * CHANNELS_PER_STREAM;
        assert(frame_bytes * streams <= 29464) by (nonlinear_arith)
            requires
                0 <= frame_bytes <= 232,
                0 <= streams <= 127,
        ;
        let bytes: usize = frame_bytes * streams;
        if bytes <= MAX_PACKET_SIZE {
            bytes as u16
        } else {
            MAX_PACKET_SIZE as u16
        }
    }

    /// The bytes with which a device describes itself.
    pub open spec fn wire(self) -> Seq<u8> {
        seq![
            (self.fw_version % 256) as u8,
            (self.fw_version / 256) as u8,
            self.hw_subtype,
            self.num_erp,
            self.num_analog_in,
            self.num_digital_in,
            self.num_digital_out,
            self.num_analog_audio_out,
            self.num_analog_audio_in,
            self.num_digital_audio_out,
            self.num_digital_audio_in,
            self.num_midi_out,
            self.num_midi_in,
            self.data_alignment,
        ]
    }
}

pub fn get_device_info_request() -> (request: [u8; 1])
    ensures
        request@ == seq![Command::GetDeviceInfo.code_spec()],
        request@ == seq![0x01u8],
{
    let request = [Command::GetDeviceInfo.code()];
    assert(request@ =~= seq![Command::GetDeviceInfo.code_spec()]);
    request
}

/// The request that selects `rate`, 24-bit depth and the maximum packet size.
pub open spec fn audio_params_spec(rate: SampleRate, max_packet_bytes: u16) -> Seq<u8> {
    seq![
        0x09u8,
        rate.code_spec(),
        DEPTH_24,
        (max_packet_bytes % 256) as u8,
        (max_packet_bytes / 256) as u8,
        1u8,
    ]
}

/// Selects sample rate, 24-bit depth and the maximum packet size.
pub fn audio_params_request(rate: SampleRate, max_packet_bytes: u16) -> (request: [u8; 6])
    ensures
        request@ == audio_params_spec(rate, max_packet_bytes),
        request@[0] == 9,
        request@[1] == (match rate {
            SampleRate::Hz44100 => 0u8,
            SampleRate::Hz48000 => 1u8,
            SampleRate::Hz96000 => 2u8,
            SampleRate::Hz192000 => 3u8,
            SampleRate::Hz88200 => 4u8,
        }),
        request@[2] == 2,
        request@[3] + 256 * request@[4] == max_packet_bytes,
        request@[5] == 1,
{
    let lo: u8 = u32_byte(max_packet_bytes as u32, 0);
    let hi: u8 = u32_byte(max_packet_bytes as u32, 1);
    let request = [Command::AudioParams.code(), rate.code(), DEPTH_24, lo, hi, 1];
    assert(request@ =~= audio_params_spec(rate, max_packet_bytes));
    request
}

/// Enables unsolicited input reports; `erp` is the encoder report threshold.
pub fn auto_msg_request(digital: u8, analog: u8, erp: u8) -> (request: [u8; 4])
    ensures
        request@ == seq![0x0bu8, digital, analog, erp],
{
    let request = [Command::AutoMsg.code(), digital, analog, erp];
    assert(request@ =~= seq![0x0bu8, digital, analog, erp]);
    request
}

#[derive(Clone, Copy, Debug, PartialEq, Eq)]
pub enum Reply<'a> {
    DeviceInfo(DeviceSpec),
    AudioParams { accepted: bool },
    MidiRead { port: u8, data: &'a [u8] },
    ReadIo(&'a [u8]),
    ReadErp(&'a [u8]),
    ReadAnalog(&'a [u8]),
    Other { command: u8, payload: &'a [u8] },
}

/// A reply as a value.
pub enum ReplyView {
    DeviceInfo(DeviceSpec),
    AudioParams { accepted: bool },
    MidiRead { port: u8, data: Seq<u8> },
    ReadIo(Seq<u8>),
    ReadErp(Seq<u8>),
    ReadAnalog(Seq<u8>),
    Other { command: u8, payload: Seq<u8> },
}

impl<'a> View for Reply<'a> {
    type V = ReplyView;

    open spec fn view(&self) -> ReplyView {
        match *self {
            Reply::DeviceInfo(spec) => ReplyView::DeviceInfo(spec),
            Reply::AudioParams { accepted } => ReplyView::AudioParams { accepted },
            Reply::MidiRead { port, data } => ReplyView::MidiRead { port, data: data@ },
            Reply::ReadIo(payload) => ReplyView::ReadIo(payload@),
            Reply::ReadErp(payload) => ReplyView::ReadErp(payload@),
            Reply::ReadAnalog(payload) => ReplyView::ReadAnalog(payload@),
            Reply::Other { command, payload } => ReplyView::Other { command, payload: payload@ },
        }
    }
}

/// What a message on the command pipe says: `None` when it is too short for
/// what its first byte announces.
pub open spec fn parse_reply_spec(buf: Seq<u8>) -> Option<ReplyView> {
    if buf.len() == 0 {
        None
    } else {
        let payload = buf.subrange(1, buf.len() as int);
        match buf[0] {
            0x01 => match DeviceSpec::parse_spec(payload) {
                Some(spec) => Some(ReplyView::DeviceInfo(spec)),
                None => None,
            },
            0x09 => if payload.len() == 0 {
                None
            } else {
                Some(ReplyView::AudioParams { accepted: payload[0] == 1 })
            },
            0x06 => if payload.len() < 2 || payload.len() < 2 + payload[1] {
                None
            } else {
                Some(
                    ReplyView::MidiRead {
                        port: payload[0],
                        data: payload.subrange(2, 2 + payload[1]),
                    },
                )
            },
            0x04 => Some(ReplyView::ReadIo(payload)),
            0x02 => Some(ReplyView::ReadErp(payload)),
            0x03 => Some(ReplyView::ReadAnalog(payload)),
            _ => Some(ReplyView::Other { command: buf[0], payload }),
        }
    }
}

impl<'a> Reply<'a> {
    pub fn parse(buf: &'a [u8]) -> (reply: Option<Reply<'a>>)
        ensures
            match reply {
                Some(reply) => parse_reply_spec(buf@) == Some(reply@),
                None => parse_reply_spec(buf@) is None,
            },
    {
        if buf.len() == 0 {
            return None;
        }
        let payload = slice_subrange(buf, 1, buf.len());
        match buf[0] {
            0x01 => match DeviceSpec::parse(payload) {
                Some(spec) => Some(Reply::DeviceInfo(spec)),
                None => None,
            },
            0x09 => if payload.len() == 0 {
                None
            } else {
                Some(Reply::AudioParams { accepted: payload[0] == 1 })
            },
            0x06 => {
                if payload.len() < 2 {
                    return None;
                }
                let len: usize = payload[1] as usize;
                if payload.len() - 2 < len {
                    return None;
                }
                Some(Reply::MidiRead { port: payload[0], data: slice_subrange(payload, 2, 2 + len) })
            },
            0x04 => Some(Reply::ReadIo(payload)),
            0x02 => Some(Reply::ReadErp(payload)),
            0x03 => Some(Reply::ReadAnalog(payload)),
            command => Some(Reply::Other { command, payload }),
        }
    }
}

/// A rate is found again from its frequency, and nothing else is found.
pub proof fn law_rates_are_found_by_frequency(rate: SampleRate, hz: int)
    ensures
        SampleRate::from_hz_spec(rate.hz_spec() as int) == Some(rate),
        match SampleRate::from_hz_spec(hz) {
            Some(found) => found.hz_spec() == hz,
            None => forall|other: SampleRate| #[trigger] other.hz_spec() != hz,
        },
{
}

/// The device can tell all rates apart by their selectors.
pub proof fn law_rate_selectors_differ(a: SampleRate, b: SampleRate)
    ensures
        a.code_spec() == b.code_spec() ==> a == b,
{
}

/// The second byte of the audio parameters request is the device's selector for
/// the frequency asked for, which is no rank by frequency; the other bytes are
/// the command, the depth of three bytes per sample, the packet size with its
/// low byte first, and a one.
pub proof fn law_requests_select_the_rate(rate: SampleRate, max_packet_bytes: u16)
    ensures
        rate.hz_spec() == 44_100 || rate.hz_spec() == 48_000 || rate.hz_spec() == 96_000
            || rate.hz_spec() == 192_000 || rate.hz_spec() == 88_200,
        rate.hz_spec() == 44_100 ==> audio_params_spec(rate, max_packet_bytes)[1] == 0,
        rate.hz_spec() == 48_000 ==> audio_params_spec(rate, max_packet_bytes)[1] == 1,
        rate.hz_spec() == 96_000 ==> audio_params_spec(rate, max_packet_bytes)[1] == 2,
        rate.hz_spec() == 192_000 ==> audio_params_spec(rate, max_packet_bytes)[1] == 3,
        rate.hz_spec() == 88_200 ==> audio_params_spec(rate, max_packet_bytes)[1] == 4,
        audio_params_spec(rate, max_packet_bytes).len() == 6,
        audio_params_spec(rate, max_packet_bytes)[0] == 9,
        audio_params_spec(rate, max_packet_bytes)[2] == 2,
        audio_params_spec(rate, max_packet_bytes)[3] + 256 * audio_params_spec(
            rate,
            max_packet_bytes,
        )[4] == max_packet_bytes,
        audio_params_spec(rate, max_packet_bytes)[5] == 1,
{
}

/// Each rate runs at the frequency of its name and is found by it.
pub proof fn law_rates_have_their_frequency(rate: SampleRate)
    ensures
        rate is Hz44100 <==> rate.hz_spec() == 44_100,
        rate is Hz48000 <==> rate.hz_spec() == 48_000,
        rate is Hz88200 <==> rate.hz_spec() == 88_200,
        rate is Hz96000 <==> rate.hz_spec() == 96_000,
        rate is Hz192000 <==> rate.hz_spec() == 192_000,
        SampleRate::from_hz_spec(44_100) == Some(SampleRate::Hz44100),
        SampleRate::from_hz_spec(48_000) == Some(SampleRate::Hz48000),
        SampleRate::from_hz_spec(88_200) == Some(SampleRate::Hz88200),
        SampleRate::from_hz_spec(96_000) == Some(SampleRate::Hz96000),
        SampleRate::from_hz_spec(192_000) == Some(SampleRate::Hz192000),
{
}

/// The device knows each command by one byte.
pub proof fn law_commands_have_their_byte(command: Command)
    ensures
        command is GetDeviceInfo <==> command.code_spec() == 1,
        command is ReadErp <==> command.code_spec() == 2,
        command is ReadAnalog <==> command.code_spec() == 3,
        command is ReadIo <==> command.code_spec() == 4,
        command is WriteIo <==> command.code_spec() == 5,
        command is MidiRead <==> command.code_spec() == 6,
        command is MidiWrite <==> command.code_spec() == 7,
        command is AudioParams <==> command.code_spec() == 9,
        command is AutoMsg <==> command.code_spec() == 11,
        command is DimmLeds <==> command.code_spec() == 12,
{
}

/// The byte after the command of a reply on the audio parameters says whether
/// they were accepted: one does, every other value does not.
pub proof fn law_acceptance_is_one_byte(answer: u8, rest: Seq<u8>)
    ensures
        parse_reply_spec(seq![9u8]) is None,
        parse_reply_spec(seq![9u8, answer] + rest) == Some(
            ReplyView::AudioParams { accepted: answer == 1 },
        ),
{
    let buf = seq![9u8, answer] + rest;
    let payload = buf.subrange(1, buf.len() as int);
    assert(buf[0] == 9 && payload[0] == answer && payload.len() > 0);
    let short = seq![9u8];
    assert(short.subrange(1, short.len() as int).len() == 0);
}

/// MIDI bytes arrive behind their port and their number. They are read back
/// whole, without what follows them, and a message that holds fewer than it
/// announces says nothing.
pub proof fn law_midi_bytes_are_read_back(port: u8, data: Seq<u8>, rest: Seq<u8>, missing: u8)
    requires
        data.len() < 256,
        data.len() < missing,
    ensures
        parse_reply_spec(seq![6u8, port, data.len() as u8] + data + rest) == Some(
            ReplyView::MidiRead { port, data },
        ),
        parse_reply_spec(seq![6u8, port, missing] + data) is None,
        parse_reply_spec(seq![6u8, port]) is None,
        parse_reply_spec(seq![6u8]) is None,
{
    let buf = seq![6u8, port, data.len() as u8] + data + rest;
    let payload = buf.subrange(1, buf.len() as int);
    assert(buf[0] == 6 && payload[0] == port && payload[1] == data.len());
    assert(payload.subrange(2, 2 + payload[1]) =~= data);
    let short = seq![6u8, port, missing] + data;
    let announced = short.subrange(1, short.len() as int);
    assert(short[0] == 6 && announced[1] == missing && announced.len() == 2 + data.len());
    let bare = seq![6u8, port];
    assert(bare.subrange(1, bare.len() as int).len() == 1);
    let empty = seq![6u8];
    assert(empty.subrange(1, empty.len() as int).len() == 0);
}

/// Every other message is its first byte and the bytes that follow it, and an
/// empty one says nothing.
pub proof fn law_other_replies_keep_their_bytes(command: u8, payload: Seq<u8>)
    requires
        command != 1 && command != 6 && command != 9,
    ensures
        parse_reply_spec(Seq::empty()) is None,
        command == 2 ==> parse_reply_spec(seq![command] + payload) == Some(
            ReplyView::ReadErp(payload),
        ),
        command == 3 ==> parse_reply_spec(seq![command] + payload) == Some(
            ReplyView::ReadAnalog(payload),
        ),
        command == 4 ==> parse_reply_spec(seq![command] + payload) == Some(
            ReplyView::ReadIo(payload),
        ),
        command != 2 && command != 3 && command != 4 ==> parse_reply_spec(
            seq![command] + payload,
        ) == Some(ReplyView::Other { command, payload }),
{
    let buf = seq![command] + payload;
    assert(buf.subrange(1, buf.len() as int) =~= payload);
    assert(buf[0] == command);
}

/// A description that lost bytes is refused.
pub proof fn law_short_descriptions_are_refused(bytes: Seq<u8>)
    requires
        bytes.len() < 14,
    ensures
        DeviceSpec::parse_spec(bytes) is None,
        parse_reply_spec(seq![1u8] + bytes) is None,
{
    let buf = seq![1u8] + bytes;
    assert(buf.subrange(1, buf.len() as int) =~= bytes);
    assert(buf[0] == 1);
}

/// A packet carries as many stereo streams as pairs fit in the largest of the
/// device's four channel counts; each direction counts its own two.
pub proof fn law_streams_cover_all_channels(spec: DeviceSpec)
    ensures
        2 * spec.capture_streams_spec() + 1 >= spec.num_analog_audio_in,
        2 * spec.capture_streams_spec() + 1 >= spec.num_digital_audio_in,
        2 * spec.capture_streams_spec() <= spec.num_analog_audio_in || 2
            * spec.capture_streams_spec() <= spec.num_digital_audio_in,
        2 * spec.playback_streams_spec() + 1 >= spec.num_analog_audio_out,
        2 * spec.playback_streams_spec() + 1 >= spec.num_digital_audio_out,
        2 * spec.playback_streams_spec() <= spec.num_analog_audio_out || 2
            * spec.playback_streams_spec() <= spec.num_digital_audio_out,
        spec.streams_spec() >= spec.capture_streams_spec(),
        spec.streams_spec() >= spec.playback_streams_spec(),
        spec.streams_spec() == spec.capture_streams_spec() || spec.streams_spec()
            == spec.playback_streams_spec(),
{
}

/// The largest packet is that of five frames more than a microframe's whole
/// frames, each with a sample of three bytes, or four with a check byte, per
/// channel, and never more than the endpoint takes.
pub proof fn law_packets_allow_for_drift(spec: DeviceSpec, rate: SampleRate, frames: int)
    requires
        8000 * (frames - 5) <= rate.hz_spec() < 8000 * (frames - 4),
    ensures
        spec.max_packet_bytes_spec(rate) <= 512,
        spec.data_alignment < 2 && 6 * (frames * spec.streams_spec()) <= 512
            ==> spec.max_packet_bytes_spec(rate) == 6 * (frames * spec.streams_spec()),
        spec.data_alignment >= 2 && 8 * (frames * spec.streams_spec()) <= 512
            ==> spec.max_packet_bytes_spec(rate) == 8 * (frames * spec.streams_spec()),
        spec.data_alignment < 2 && 6 * (frames * spec.streams_spec()) > 512
            ==> spec.max_packet_bytes_spec(rate) == 512,
        spec.data_alignment >= 2 && 8 * (frames * spec.streams_spec()) > 512
            ==> spec.max_packet_bytes_spec(rate) == 512,
{
    let streams = spec.streams_spec();
    assert(rate.hz_spec() as int / 8000 + 5 == frames);
    assert(frames * 3 * 2 * streams == 6 * (frames * streams)) by (nonlinear_arith);
    assert(frames * 4 * 2 * streams == 8 * (frames * streams)) by (nonlinear_arith);
}

/// The description that a device sends in reply to a device info request is
/// read back whole, whatever follows it in the buffer.
pub proof fn law_device_info_round_trips(spec: DeviceSpec, rest: Seq<u8>)
    ensures
        parse_reply_spec(seq![Command::GetDeviceInfo.code_spec()] + spec.wire() + rest) == Some(
            ReplyView::DeviceInfo(spec),
        ),
{
    let buf = seq![Command::GetDeviceInfo.code_spec()] + spec.wire() + rest;
    let payload = buf.subrange(1, buf.len() as int);
    assert(payload =~= spec.wire() + rest);
    assert(buf[0] == 0x01);
}

/// The device's own clock may run fast by some frames per microframe: the
/// largest packet has room for the frames of one microframe at the nominal
/// rate, rounded up, unless the endpoint's limit is smaller.
pub proof fn law_packets_hold_a_microframe(spec: DeviceSpec, rate: SampleRate)
    ensures
        spec.max_packet_bytes_spec(rate) == 512 || spec.max_packet_bytes_spec(rate) * 8000 >= (
        rate.hz_spec() as int) * (spec.wire_bytes_spec() * 2 * spec.streams_spec()),
{
    let hz = rate.hz_spec() as int;
    let frame = spec.wire_bytes_spec() * 2 * spec.streams_spec();
    let frames = hz / 8000 + 5;
    assert(frames * spec.wire_bytes_spec() * 2 * spec.streams_spec() == frames * frame)
        by (nonlinear_arith)
        requires
            frame == spec.wire_bytes_spec() * 2 * spec.streams_spec(),
    ;
    assert((frames * frame) * 8000 >= hz * frame) by (nonlinear_arith)
        requires
            frames * 8000 >= hz,
            frame >= 0,
    ;
}

/// The device is known by its two numbers, and its endpoints by the addresses
/// from which their direction can be read: those of the inputs have the top bit.
pub proof fn law_device_is_known_by_its_numbers()
    ensures
        VENDOR_ID == 0x17cc,
        PRODUCT_ID == 0x0815,
        EP_CMD_OUT == 1,
        EP_CMD_IN == 128 + 1,
        EP_AUDIO_IN == 128 + 2,
        EP_AUDIO_OUT == 6,
        MAX_PACKET_SIZE == 512,
        MICROFRAMES_PER_SECOND == 8000,
{
}

} // verus!
