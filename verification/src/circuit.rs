//! Audio circuits: one stereo render circuit per output pair and one stereo
//! capture circuit for the inputs, the formats they offer and the streams
//! that are opened on them.

use vstd::prelude::*;

use crate::audio::{live, Audio, AudioView, EngineStart};
use crate::bytes::{law_le32_round_trip, le32_bytes, u32_byte};
use crate::mode2::STREAMS;
use crate::proto::{DeviceSpec, SampleRate};
use crate::rt::{RtStream, Slot, StreamView};
use crate::status::{NtStatus, STATUS_NOT_SUPPORTED};
use crate::stream::Stats;

verus! {

pub const KSCATEGORY_AUDIO: u128 = 0x6994ad04_93ef_11d0_a3cc_00a0c9223196;

pub const KSNODETYPE_LINE_CONNECTOR: u128 = 0xdff21fe3_f70f_11d0_b917_00a0c9223196;

pub const KSDATAFORMAT_TYPE_AUDIO: u128 = 0x73647561_0000_0010_8000_00aa00389b71;

pub const KSDATAFORMAT_SUBTYPE_PCM: u128 = 0x00000001_0000_0010_8000_00aa00389b71;

pub const KSDATAFORMAT_SPECIFIER_WAVEFORMATEX: u128 = 0x05589f81_c356_11ce_bf01_00aa0055595a;

pub const WAVE_FORMAT_EXTENSIBLE: u16 = 0xfffe;

pub const SPEAKER_FRONT_LEFT_RIGHT: u32 = 0x3;

pub const WAVEFORMATEXTENSIBLE_EXTRA_BYTES: u16 = 22;

/// Bytes of a `KSDATAFORMAT_WAVEFORMATEXTENSIBLE`.
pub const KS_WAVE_FORMAT_BYTES: u32 = 104;

/// `KSDATAFORMAT_WAVEFORMATEXTENSIBLE`, its identifiers as numbers.
#[derive(Clone, Copy, Debug, PartialEq, Eq, Structural)]
pub struct KsWaveFormat {
    pub format_size: u32,
    pub flags: u32,
    pub sample_size: u32,
    pub reserved: u32,
    pub major_format: u128,
    pub sub_format: u128,
    pub specifier: u128,
    pub format_tag: u16,
    pub channels: u16,
    pub samples_per_sec: u32,
    pub avg_bytes_per_sec: u32,
    pub block_align: u16,
    pub bits_per_sample: u16,
    pub cb_size: u16,
    pub valid_bits_per_sample: u16,
    pub channel_mask: u32,
    pub pcm_sub_format: u128,
}

impl KsWaveFormat {
    pub open spec fn stereo_pcm_spec(rate_hz: u32, container_bits: u16, valid_bits: u16) -> KsWaveFormat {
        let block_align = 2 * container_bits as int / 8;
        KsWaveFormat {
            format_size: KS_WAVE_FORMAT_BYTES,
            flags: 0,
            sample_size: block_align as u32,
            reserved: 0,
            major_format: KSDATAFORMAT_TYPE_AUDIO,
            sub_format: KSDATAFORMAT_SUBTYPE_PCM,
            specifier: KSDATAFORMAT_SPECIFIER_WAVEFORMATEX,
            format_tag: WAVE_FORMAT_EXTENSIBLE,
            channels: 2,
            samples_per_sec: rate_hz,
            avg_bytes_per_sec: (rate_hz * block_align) as u32,
            block_align: block_align as u16,
            bits_per_sample: container_bits,
            cb_size: WAVEFORMATEXTENSIBLE_EXTRA_BYTES,
            valid_bits_per_sample: valid_bits,
            channel_mask: SPEAKER_FRONT_LEFT_RIGHT,
            pcm_sub_format: KSDATAFORMAT_SUBTYPE_PCM,
        }
    }

    /// Interleaved stereo integer PCM in `container_bits`-bit samples.
    pub fn stereo_pcm(rate_hz: u32, container_bits: u16, valid_bits: u16) -> (format: KsWaveFormat)
        requires
            2 * container_bits <= u16::MAX,
            rate_hz * (2 * container_bits as int / 8) <= u32::MAX,
        ensures
            format == KsWaveFormat::stereo_pcm_spec(rate_hz, container_bits, valid_bits),
    {
        let block_align: u16 = 2 * container_bits / 8;
        KsWaveFormat {
            format_size: KS_WAVE_FORMAT_BYTES,
            flags: 0,
            sample_size: block_align as u32,
            reserved: 0,
            major_format: KSDATAFORMAT_TYPE_AUDIO,
            sub_format: KSDATAFORMAT_SUBTYPE_PCM,
            specifier: KSDATAFORMAT_SPECIFIER_WAVEFORMATEX,
            format_tag: WAVE_FORMAT_EXTENSIBLE,
            channels: 2,
            samples_per_sec: rate_hz,
            avg_bytes_per_sec: rate_hz * block_align as u32,
            block_align,
            bits_per_sample: container_bits,
            cb_size: WAVEFORMATEXTENSIBLE_EXTRA_BYTES,
            valid_bits_per_sample: valid_bits,
            channel_mask: SPEAKER_FRONT_LEFT_RIGHT,
            pcm_sub_format: KSDATAFORMAT_SUBTYPE_PCM,
        }
    }
}

/// A format that a circuit offers.
#[derive(Clone, Copy, Debug, PartialEq, Eq, Structural)]
pub struct Format {
    pub rate: SampleRate,
    pub container_bits: u16,
    pub valid_bits: u16,
}

/// The rates in the order in which formats name them: the default first.
pub open spec fn format_rate(index: int) -> SampleRate {
    if index == 0 {
        SampleRate::Hz48000
    } else if index == 1 {
        SampleRate::Hz44100
    } else if index == 2 {
        SampleRate::Hz88200
    } else if index == 3 {
        SampleRate::Hz96000
    } else {
        SampleRate::Hz192000
    }
}

/// Format `index` of the ten: 24 bits in 32 at each rate, then 16 bits.
pub open spec fn format_spec(index: int) -> Format {
    Format {
        rate: format_rate(index % 5),
        container_bits: if index < 5 {
            32
        } else {
            16
        },
        valid_bits: if index < 5 {
            24
        } else {
            16
        },
    }
}

fn rate_at(index: usize) -> (rate: SampleRate)
    ensures
        rate == format_rate(index as int),
{
    if index == 0 {
        SampleRate::Hz48000
    } else if index == 1 {
        SampleRate::Hz44100
    } else if index == 2 {
        SampleRate::Hz88200
    } else if index == 3 {
        SampleRate::Hz96000
    } else {
        SampleRate::Hz192000
    }
}

/// The formats that every circuit offers, the default first: 48 kHz with 24
/// valid bits.
pub fn formats() -> (formats: Vec<Format>)
    ensures
        formats@ == Seq::new(10, |i: int| format_spec(i)),
{
    let mut formats: Vec<Format> = Vec::new();
    let mut i: usize = 0;
    while i < 10
        invariant
            i <= 10,
            formats@ =~= Seq::new(i as nat, |k: int| format_spec(k)),
        decreases 10 - i,
    {
        let wide = i < 5;
        formats.push(
            Format {
                rate: rate_at(i % 5),
                container_bits: if wide {
                    32
                } else {
                    16
                },
                valid_bits: if wide {
                    24
                } else {
                    16
                },
            },
        );
        i = i + 1;
    }
    formats
}

/// The name of a circuit, which is the reference string of its interface.
pub fn circuit_name(slot: Slot) -> (name: &'static str)
    ensures
        name@ == match slot {
            Slot::Output12 => "Output12"@,
            Slot::Output34 => "Output34"@,
            Slot::Input12 => "Input12"@,
        },
{
    match slot {
        Slot::Output12 => "Output12",
        Slot::Output34 => "Output34",
        Slot::Input12 => "Input12",
    }
}

/// The component identifier of a circuit.
pub fn component_id(slot: Slot) -> (id: u128)
    ensures
        id == 0x5c2a1f6e_3b7d_4e21_9a4f_610d2b8e7101 + slot.index_spec(),
{
    0x5c2a1f6e_3b7d_4e21_9a4f_610d2b8e7101 + slot.index() as u128
}

#[derive(Clone, Copy, Debug, PartialEq, Eq, Structural)]
pub enum PinType {
    Source,
    Sink,
}

/// The types of a circuit's host pin and its bridge pin.
pub fn pin_types(slot: Slot) -> (types: (PinType, PinType))
    ensures
        types == (if slot == Slot::Input12 {
            (PinType::Source, PinType::Sink)
        } else {
            (PinType::Sink, PinType::Source)
        }),
{
    if slot.is_capture() {
        (PinType::Source, PinType::Sink)
    } else {
        (PinType::Sink, PinType::Source)
    }
}

/// The first slot whose circuit is `circuit`.
pub open spec fn slot_of_spec(circuits: Seq<u64>, circuit: u64) -> Option<Slot> {
    if circuits[0] == circuit {
        Some(Slot::Output12)
    } else if circuits[1] == circuit {
        Some(Slot::Output34)
    } else if circuits[2] == circuit {
        Some(Slot::Input12)
    } else {
        None
    }
}

/// The slot of a circuit, given the circuits of the slots.
pub fn slot_of(circuits: &[u64; 3], circuit: u64) -> (slot: Option<Slot>)
    ensures
        slot == slot_of_spec(circuits@, circuit),
{
    if circuits[0] == circuit {
        Some(Slot::Output12)
    } else if circuits[1] == circuit {
        Some(Slot::Output34)
    } else if circuits[2] == circuit {
        Some(Slot::Input12)
    } else {
        None
    }
}

/// What a stream to be made is like.
#[derive(Clone, Copy, Debug, PartialEq, Eq, Structural)]
pub struct StreamPlan {
    pub slot: Slot,
    pub rate: SampleRate,
    pub container_bits: u32,
}

pub open spec fn plan_spec(
    slot: Option<Slot>,
    hz: u32,
    channels: u32,
    container_bits: u32,
) -> Result<StreamPlan, NtStatus> {
    match (slot, SampleRate::from_hz_spec(hz as int)) {
        (Some(slot), Some(rate)) => if channels == 2 && (container_bits == 16 || container_bits == 32) {
            Ok(StreamPlan { slot, rate, container_bits })
        } else {
            Err(STATUS_NOT_SUPPORTED)
        },
        _ => Err(STATUS_NOT_SUPPORTED),
    }
}

/// Whether a stream of the given format can be made on the circuit of `slot`;
/// `None` where the circuit is not one of the device's.
pub fn plan_stream(
    slot: Option<Slot>,
    hz: u32,
    channels: u32,
    container_bits: u32,
) -> (plan: Result<StreamPlan, NtStatus>)
    ensures
        plan == plan_spec(slot, hz, channels, container_bits),
{
    let slot: Slot = match slot {
        Some(slot) => slot,
        None => {
            return Err(STATUS_NOT_SUPPORTED);
        },
    };
    let rate: SampleRate = match SampleRate::from_hz(hz) {
        Some(rate) => rate,
        None => {
            return Err(STATUS_NOT_SUPPORTED);
        },
    };
    if channels != 2 || !(container_bits == 16 || container_bits == 32) {
        return Err(STATUS_NOT_SUPPORTED);
    }
    Ok(StreamPlan { slot, rate, container_bits })
}

/// A stream as it is when it is made.
pub open spec fn new_stream(plan: StreamPlan) -> StreamView {
    StreamView {
        slot: plan.slot,
        rate: plan.rate,
        container: plan.container_bits as int / 8,
        buffers: seq![],
        packet_bytes: 0,
        first_offset: 0,
        frames: 0,
        qpc: 0,
        current_packet: 0,
        last_packet_start_qpc: 0,
    }
}

/// The framework has made the stream that `plan` describes, for which the
/// clock was reserved, or not: then the reservation is given up. Gives the
/// number of the stream.
pub fn finish_stream(audio: &mut Audio, plan: StreamPlan, status: NtStatus) -> (id: Result<usize, NtStatus>)
    requires
        old(audio)@.wf(),
        plan.container_bits == 16 || plan.container_bits == 32,
        old(audio)@.rate == Some(plan.rate),
        live(old(audio)@.streams) < old(audio)@.claimed,
    ensures
        if status >= 0 {
            &&& id matches Ok(id) && id == old(audio)@.next_id() && final(audio)@.is_live(id as int)
            &&& final(audio)@ == old(audio)@.added(new_stream(plan))
        } else {
            &&& id == Err::<usize, NtStatus>(status)
            &&& final(audio)@ == old(audio)@.released()
        },
        final(audio)@.wf(),
{
    if status < 0 {
        audio.release_rate();
        return Err(status);
    }
    Ok(audio.add_stream(RtStream::new(plan.slot, plan.rate, plan.container_bits)))
}

/// A stream of every format that a circuit offers can be made on it.
pub proof fn law_offered_formats_are_accepted(index: int, slot: Slot)
    requires
        0 <= index < 10,
    ensures
        plan_spec(
            Some(slot),
            format_spec(index).rate.hz_spec(),
            2,
            format_spec(index).container_bits as u32,
        ) == Ok::<StreamPlan, NtStatus>(
            StreamPlan {
                slot,
                rate: format_spec(index).rate,
                container_bits: format_spec(index).container_bits as u32,
            },
        ),
{
}

/// No stream can be made of a rate that the device does not have, with other
/// than two channels or with samples other than of 16 or 32 bits.
pub proof fn law_other_formats_are_refused(slot: Option<Slot>, hz: u32, channels: u32, bits: u32)
    requires
        SampleRate::from_hz_spec(hz as int) is None || channels != 2 || !(bits == 16 || bits == 32),
    ensures
        plan_spec(slot, hz, channels, bits) == Err::<StreamPlan, NtStatus>(STATUS_NOT_SUPPORTED),
{
}

/// Whether the driver can work with a device: it knows one packet layout.
pub fn check_hardware(spec: &DeviceSpec) -> (result: Result<(), NtStatus>)
    ensures
        result == (if spec.data_alignment == 2 && spec.streams_spec() == STREAMS {
            Ok::<(), NtStatus>(())
        } else {
            Err(STATUS_NOT_SUPPORTED)
        }),
{
    if spec.data_alignment != 2 || spec.streams() != STREAMS {
        return Err(STATUS_NOT_SUPPORTED);
    }
    Ok(())
}

/// Whether silence is streamed while the device has power: it is when the
/// hardware key names a sample rate in `TestRate`, which was removed with the
/// outcome `removed` so that a crash while streaming does not repeat on the
/// next boot.
pub fn test_stream(
    test_rate: Option<u32>,
    removed: Result<(), NtStatus>,
    spec: Option<DeviceSpec>,
) -> (start: Result<Option<EngineStart>, NtStatus>)
    ensures
        start == match test_rate {
            None => Ok(None),
            Some(hz) => match removed {
                Err(status) => Err(status),
                Ok(()) => match (SampleRate::from_hz_spec(hz as int), spec) {
                    (None, _) => Err(STATUS_NOT_SUPPORTED),
                    (Some(_), None) => Ok(None),
                    (Some(rate), Some(spec)) => Ok(
                        Some(
                            EngineStart {
                                rate,
                                max_packet_bytes: spec.max_packet_bytes_spec(rate) as u16,
                            },
                        ),
                    ),
                },
            },
        },
{
    let hz: u32 = match test_rate {
        Some(hz) => hz,
        None => {
            return Ok(None);
        },
    };
    match removed {
        Ok(()) => {},
        Err(status) => {
            return Err(status);
        },
    }
    let rate: SampleRate = match SampleRate::from_hz(hz) {
        Some(rate) => rate,
        None => {
            return Err(STATUS_NOT_SUPPORTED);
        },
    };
    match spec {
        Some(spec) => Ok(
            Some(EngineStart { rate, max_packet_bytes: spec.max_packet_bytes(rate) }),
        ),
        None => Ok(None),
    }
}

/// Counters as the hardware key keeps them, the low byte of each first.
pub open spec fn counter_bytes(counters: Seq<u32>) -> Seq<u8>
    decreases counters.len(),
{
    if counters.len() == 0 {
        seq![]
    } else {
        counter_bytes(counters.drop_last()) + le32_bytes(counters.last() as int)
    }
}

/// The counters of a stream as the hardware key keeps them.
pub fn stats_bytes(stats: &Stats) -> (bytes: Vec<u8>)
    ensures
        bytes@ == counter_bytes(stats.counters()),
        bytes.len() == 36,
{
    let counters: [u32; 9] = stats.snapshot();
    let mut bytes: Vec<u8> = Vec::new();
    let mut i: usize = 0;
    while i < 9
        invariant
            i <= 9,
            counters@.len() == 9,
            bytes.len() == 4 * i,
            bytes@ == counter_bytes(counters@.subrange(0, i as int)),
        decreases 9 - i,
    {
        let ghost before = bytes@;
        let value: u32 = counters[i];
        bytes.push(u32_byte(value, 0));
        bytes.push(u32_byte(value, 1));
        bytes.push(u32_byte(value, 2));
        bytes.push(u32_byte(value, 3));
        proof {
            assert(counters@.subrange(0, i + 1).drop_last() =~= counters@.subrange(0, i as int));
            assert(bytes@ =~= before + le32_bytes(value as int));
        }
        i = i + 1;
    }
    assert(counters@.subrange(0, 9) =~= counters@);
    bytes
}

/// The words of an ASCII text.
pub fn utf16(ascii: &[u8]) -> (words: Vec<u16>)
    ensures
        words@ == Seq::new(ascii@.len(), |i: int| ascii@[i] as u16),
{
    let mut words: Vec<u16> = Vec::new();
    let mut i: usize = 0;
    while i < ascii.len()
        invariant
            i <= ascii.len(),
            words@ =~= Seq::new(i as nat, |k: int| ascii@[k] as u16),
        decreases ascii.len() - i,
    {
        words.push(ascii[i] as u16);
        i = i + 1;
    }
    words
}

/// The length in bytes of a text of 16-bit words.
pub fn unicode_bytes(words: &[u16]) -> (bytes: u16)
    requires
        2 * words.len() <= u16::MAX,
    ensures
        bytes == 2 * words.len(),
{
    2 * words.len() as u16
}

/// Interleaved stereo takes two containers per frame, and a second as many
/// bytes as its frames take.
pub proof fn law_stereo_formats_are_consistent(rate_hz: u32, container_bits: u16, valid_bits: u16)
    requires
        container_bits == 16 || container_bits == 32,
        rate_hz * 8 <= u32::MAX,
    ensures
        ({
            let format = KsWaveFormat::stereo_pcm_spec(rate_hz, container_bits, valid_bits);
            &&& format.channels == 2
            &&& 4 * format.block_align == container_bits
            &&& 4 * format.sample_size == container_bits
            &&& format.bits_per_sample == container_bits
            &&& format.valid_bits_per_sample == valid_bits
            &&& format.samples_per_sec == rate_hz
            &&& 4 * format.avg_bytes_per_sec == rate_hz * container_bits
            &&& format.format_tag == 0xfffe
            &&& format.channel_mask == 3
            &&& format.cb_size == 22
            &&& format.flags == 0
            &&& format.reserved == 0
            &&& format.format_size == 104
            &&& format.major_format == 0x73647561_0000_0010_8000_00aa00389b71
            &&& format.sub_format == 0x00000001_0000_0010_8000_00aa00389b71
            &&& format.pcm_sub_format == 0x00000001_0000_0010_8000_00aa00389b71
            &&& format.specifier == 0x05589f81_c356_11ce_bf01_00aa0055595a
        }),
{
    let align = 2 * container_bits as int / 8;
    assert(container_bits == 16 ==> align == 4 && rate_hz * align == 4 * rate_hz && 4 * (rate_hz
        * align) == rate_hz * container_bits) by (nonlinear_arith)
        requires
            align == 2 * container_bits as int / 8,
    ;
    assert(container_bits == 32 ==> align == 8 && rate_hz * align == 8 * rate_hz && 4 * (rate_hz
        * align) == rate_hz * container_bits) by (nonlinear_arith)
        requires
            align == 2 * container_bits as int / 8,
    ;
}

/// Ten formats are offered: first 24 bits in 32, then 16 bits, each at the
/// default rate and then at the others from the lowest to the highest.
pub proof fn law_formats_in_order(i: int)
    requires
        0 <= i < 5,
    ensures
        format_spec(i).container_bits == 32,
        format_spec(i).valid_bits == 24,
        format_spec(i + 5).container_bits == 16,
        format_spec(i + 5).valid_bits == 16,
        format_spec(i + 5).rate == format_spec(i).rate,
        format_spec(0).rate == SampleRate::Hz48000,
        format_spec(1).rate == SampleRate::Hz44100,
        format_spec(2).rate == SampleRate::Hz88200,
        format_spec(3).rate == SampleRate::Hz96000,
        format_spec(4).rate == SampleRate::Hz192000,
{
}

/// A circuit is that of the slot in whose place it stands, where it stands in
/// one place only, and of none where it stands in none.
pub proof fn law_circuits_are_told_by_place(circuits: Seq<u64>, circuit: u64)
    requires
        circuits.len() == 3,
    ensures
        circuits[0] == circuit && circuits[1] != circuit && circuits[2] != circuit ==> slot_of_spec(
            circuits,
            circuit,
        ) == Some(Slot::Output12),
        circuits[0] != circuit && circuits[1] == circuit && circuits[2] != circuit ==> slot_of_spec(
            circuits,
            circuit,
        ) == Some(Slot::Output34),
        circuits[0] != circuit && circuits[1] != circuit && circuits[2] == circuit ==> slot_of_spec(
            circuits,
            circuit,
        ) == Some(Slot::Input12),
        slot_of_spec(circuits, circuit) is Some <==> circuits.contains(circuit),
{
    assert(circuits.contains(circuits[0]));
    assert(circuits.contains(circuits[1]));
    assert(circuits.contains(circuits[2]));
}

/// A stream is planned as it was asked for, and begins without packets, before
/// its first frame, in containers of the bytes that its bits take.
pub proof fn law_streams_begin_empty(slot: Slot, hz: u32, bits: u32)
    requires
        hz == 44_100 || hz == 48_000 || hz == 88_200 || hz == 96_000 || hz == 192_000,
        bits == 16 || bits == 32,
    ensures
        ({
            let plan = plan_spec(Some(slot), hz, 2, bits);
            let stream = new_stream(plan->Ok_0);
            &&& plan is Ok
            &&& plan_spec(None, hz, 2, bits) == Err::<StreamPlan, NtStatus>(STATUS_NOT_SUPPORTED)
            &&& stream.slot == slot
            &&& stream.rate.hz_spec() == hz
            &&& bits == 8 * stream.container
            &&& stream.buffers.len() == 0
            &&& stream.frames == 0
            &&& stream.qpc == 0
            &&& stream.current_packet == 0
        }),
{
}

/// Each counter takes four bytes, in its order, the low one first.
pub proof fn law_counters_take_four_bytes(counters: Seq<u32>, i: int)
    requires
        0 <= i < counters.len(),
    ensures
        ({
            let bytes = counter_bytes(counters);
            &&& bytes.len() == 4 * counters.len()
            &&& bytes[4 * i] + 256 * bytes[4 * i + 1] + 65536 * bytes[4 * i + 2] + 16777216
                * bytes[4 * i + 3] == counters[i]
        }),
    decreases counters.len(),
{
    let before = counters.drop_last();
    if before.len() > 0 {
        law_counters_take_four_bytes(
            before,
            if i < before.len() {
                i
            } else {
                0
            },
        );
    } else {
        assert(counter_bytes(before).len() == 0);
    }
    law_le32_round_trip(counters.last() as int);
    let bytes = counter_bytes(counters);
    if i < before.len() {
        assert(before[i] == counters[i]);
        assert(bytes[4 * i] == counter_bytes(before)[4 * i]);
        assert(bytes[4 * i + 1] == counter_bytes(before)[4 * i + 1]);
        assert(bytes[4 * i + 2] == counter_bytes(before)[4 * i + 2]);
        assert(bytes[4 * i + 3] == counter_bytes(before)[4 * i + 3]);
    } else {
        let last = le32_bytes(counters.last() as int);
        assert(bytes[4 * i] == last[0]);
        assert(bytes[4 * i + 1] == last[1]);
        assert(bytes[4 * i + 2] == last[2]);
        assert(bytes[4 * i + 3] == last[3]);
    }
}

/// The circuits have consecutive identifiers, and the pin that faces the host is
/// a sink where the circuit plays and a source where it captures.
pub proof fn law_circuits_differ(slot: Slot, id: u128, types: (PinType, PinType))
    requires
        call_ensures(component_id, (slot,), id),
        call_ensures(pin_types, (slot,), types),
    ensures
        slot == Slot::Output12 ==> id == 0x5c2a1f6e_3b7d_4e21_9a4f_610d2b8e7101,
        slot == Slot::Output34 ==> id == 0x5c2a1f6e_3b7d_4e21_9a4f_610d2b8e7102,
        slot == Slot::Input12 ==> id == 0x5c2a1f6e_3b7d_4e21_9a4f_610d2b8e7103,
        slot == Slot::Input12 <==> types.0 == PinType::Source,
        types.0 != types.1,
{
}

/// The driver works with a device that adds check bytes to the samples of two
/// streams, and with no other.
pub proof fn law_one_packet_layout_is_known(spec: &DeviceSpec, result: Result<(), NtStatus>)
    requires
        call_ensures(check_hardware, (spec,), result),
    ensures
        result is Ok <==> spec.data_alignment == 2 && spec.streams_spec() == 2,
        result is Err ==> result == Err::<(), NtStatus>(STATUS_NOT_SUPPORTED),
{
}

} // verus!
