use ak1::audio::{Audio, EngineStart};
use ak1::circuit::{
    check_hardware, circuit_name, component_id, finish_stream, formats, pin_types, plan_stream, slot_of, stats_bytes,
    test_stream, unicode_bytes, utf16, Format, KsWaveFormat, PinType, StreamPlan,
};
use ak1::panel::{firmware_version, last_counters};
use ak1::proto::{DeviceSpec, SampleRate};
use ak1::rt::Slot;
use ak1::status::STATUS_NOT_SUPPORTED;
use ak1::stream::Stats;

fn card() -> DeviceSpec {
    DeviceSpec {
        fw_version: 0x16,
        hw_subtype: 0,
        num_erp: 1,
        num_analog_in: 0,
        num_digital_in: 3,
        num_digital_out: 4,
        num_analog_audio_out: 4,
        num_analog_audio_in: 2,
        num_digital_audio_out: 0,
        num_digital_audio_in: 0,
        num_midi_out: 1,
        num_midi_in: 1,
        data_alignment: 2,
    }
}

#[test]
fn default_format_comes_first() {
    let formats = formats();
    assert_eq!(formats.len(), 10);
    assert_eq!(formats[0], Format { rate: SampleRate::Hz48000, container_bits: 32, valid_bits: 24 });
    assert_eq!(formats[4], Format { rate: SampleRate::Hz192000, container_bits: 32, valid_bits: 24 });
    assert_eq!(formats[6], Format { rate: SampleRate::Hz44100, container_bits: 16, valid_bits: 16 });
}

#[test]
fn every_offered_format_makes_a_stream() {
    for format in formats() {
        let bits = format.container_bits.into();
        let plan = plan_stream(Some(Slot::Input12), format.rate.hz(), 2, bits);
        assert_eq!(plan, Ok(StreamPlan { slot: Slot::Input12, rate: format.rate, container_bits: bits }));
    }
}

#[test]
fn other_streams_are_refused() {
    assert_eq!(plan_stream(None, 48_000, 2, 16), Err(STATUS_NOT_SUPPORTED));
    assert_eq!(plan_stream(Some(Slot::Input12), 32_000, 2, 16), Err(STATUS_NOT_SUPPORTED));
    assert_eq!(plan_stream(Some(Slot::Input12), 48_000, 1, 16), Err(STATUS_NOT_SUPPORTED));
    assert_eq!(plan_stream(Some(Slot::Input12), 48_000, 2, 24), Err(STATUS_NOT_SUPPORTED));
}

#[test]
fn failed_streams_give_the_clock_back() {
    let mut audio = Audio::new();
    let plan = plan_stream(Some(Slot::Output12), 48_000, 2, 32).unwrap();
    audio.claim_rate(plan.rate).unwrap();
    assert_eq!(finish_stream(&mut audio, plan, -9), Err(-9));
    audio.claim_rate(SampleRate::Hz44100).unwrap();
    let plan = plan_stream(Some(Slot::Output12), 44_100, 2, 32).unwrap();
    assert_eq!(finish_stream(&mut audio, plan, 0), Ok(0));
    assert_eq!(audio.stream(0).rate(), SampleRate::Hz44100);
    assert_eq!(audio.claim_rate(SampleRate::Hz48000), Err(STATUS_NOT_SUPPORTED));
}

#[test]
fn wave_formats_follow_the_container() {
    let format = KsWaveFormat::stereo_pcm(48_000, 32, 24);
    assert_eq!((format.format_size, format.sample_size, format.block_align), (104, 8, 8));
    assert_eq!((format.avg_bytes_per_sec, format.bits_per_sample, format.valid_bits_per_sample), (384_000, 32, 24));
    assert_eq!(KsWaveFormat::stereo_pcm(44_100, 16, 16).avg_bytes_per_sec, 176_400);
    assert_eq!((format.format_tag, format.channels, format.cb_size, format.channel_mask), (0xfffe, 2, 22, 3));
}

#[test]
fn circuits_have_names_and_pins() {
    assert_eq!(Slot::ALL.map(circuit_name), ["Output12", "Output34", "Input12"]);
    assert_eq!(component_id(Slot::Input12), 0x5c2a1f6e_3b7d_4e21_9a4f_610d2b8e7103);
    assert_eq!(pin_types(Slot::Input12), (PinType::Source, PinType::Sink));
    assert_eq!(pin_types(Slot::Output34), (PinType::Sink, PinType::Source));
    assert_eq!(slot_of(&[5, 6, 7], 6), Some(Slot::Output34));
    assert_eq!(slot_of(&[5, 6, 7], 8), None);
}

#[test]
fn devices_with_another_packet_layout_are_refused() {
    assert_eq!(check_hardware(&card()), Ok(()));
    assert_eq!(check_hardware(&DeviceSpec { data_alignment: 3, ..card() }), Err(STATUS_NOT_SUPPORTED));
    assert_eq!(check_hardware(&DeviceSpec { num_analog_audio_out: 2, ..card() }), Err(STATUS_NOT_SUPPORTED));
}

#[test]
fn test_rates_are_consumed_before_streaming() {
    let start = EngineStart { rate: SampleRate::Hz48000, max_packet_bytes: 176 };
    assert_eq!(test_stream(None, Ok(()), Some(card())), Ok(None));
    assert_eq!(test_stream(Some(48_000), Err(-4), Some(card())), Err(-4));
    assert_eq!(test_stream(Some(1), Ok(()), Some(card())), Err(STATUS_NOT_SUPPORTED));
    assert_eq!(test_stream(Some(48_000), Ok(()), None), Ok(None));
    assert_eq!(test_stream(Some(48_000), Ok(()), Some(card())), Ok(Some(start)));
}

#[test]
fn recorded_counters_are_read() {
    let mut stats = Stats::default();
    stats.capture_transfers = 0x0102_0304;
    stats.invalid_packets = u32::MAX;
    let bytes = stats_bytes(&stats);
    assert_eq!(bytes[..4], [4, 3, 2, 1]);
    assert_eq!(last_counters(&bytes), Some(stats.snapshot()));
    assert_eq!(last_counters(&bytes[1..]), None);
    assert_eq!(firmware_version(&bytes[..4]), Some(0x0102_0304));
    assert_eq!(firmware_version(&bytes[..3]), None);
}

#[test]
fn value_names_are_wide() {
    let name = utf16(b"TestRate");
    assert_eq!(name[..2], [0x54, 0x65]);
    assert_eq!(unicode_bytes(&name), 16);
}
