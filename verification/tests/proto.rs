use ak1::proto::{audio_params_request, auto_msg_request, Command, DeviceSpec, Reply, SampleRate};

fn ak1_like_spec(data_alignment: u8) -> DeviceSpec {
    DeviceSpec {
        fw_version: 0x16,
        hw_subtype: 0,
        num_erp: 1,
        num_analog_in: 0,
        num_digital_in: 3,
        num_digital_out: 4,
        num_analog_audio_out: 4,
        num_analog_audio_in: 2,
        num_digital_audio_out: 0,
        num_digital_audio_in: 0,
        num_midi_out: 1,
        num_midi_in: 1,
        data_alignment,
    }
}

#[test]
fn device_info_reply_round_trips_little_endian_firmware() {
    let buf = [0x01, 0x16, 0x00, 0, 1, 0, 3, 4, 4, 2, 0, 0, 1, 1, 0];
    let Some(Reply::DeviceInfo(spec)) = Reply::parse(&buf) else { panic!("not device info") };
    assert_eq!(spec, ak1_like_spec(0));
}

#[test]
fn short_device_info_reply_is_rejected() {
    assert_eq!(Reply::parse(&[0x01, 0x16, 0x00]), None);
}

#[test]
fn two_in_four_out_needs_two_streams() {
    let spec = ak1_like_spec(0);
    assert_eq!((spec.capture_streams(), spec.playback_streams(), spec.streams()), (1, 2, 2));
}

#[test]
fn packet_size_at_192k_fits_endpoint() {
    assert_eq!(ak1_like_spec(0).max_packet_bytes(SampleRate::Hz192000), 29 * 3 * 2 * 2);
    assert_eq!(ak1_like_spec(3).max_packet_bytes(SampleRate::Hz192000), 29 * 4 * 2 * 2);
    assert_eq!(ak1_like_spec(3).max_packet_bytes(SampleRate::Hz44100), 10 * 4 * 2 * 2);
}

#[test]
fn audio_params_encodes_rate_code_and_le_size() {
    assert_eq!(audio_params_request(SampleRate::Hz88200, 0x015c), [0x09, 4, 2, 0x5c, 0x01, 1]);
    assert_eq!(audio_params_request(SampleRate::Hz192000, 348), [0x09, 3, 2, 0x5c, 0x01, 1]);
}

#[test]
fn midi_reply_length_is_bounded_by_buffer() {
    assert_eq!(
        Reply::parse(&[0x06, 0, 2, 0x90, 0x40]),
        Some(Reply::MidiRead { port: 0, data: &[0x90, 0x40] })
    );
    assert_eq!(Reply::parse(&[0x06, 0, 3, 0x90, 0x40]), None);
}

#[test]
fn rates_are_found_by_frequency() {
    for rate in SampleRate::ALL {
        assert_eq!(SampleRate::from_hz(rate.hz()), Some(rate));
    }
    assert_eq!(SampleRate::from_hz(44_101), None);
    assert_eq!(SampleRate::ALL.map(|rate| rate.hz()), [44_100, 48_000, 88_200, 96_000, 192_000]);
}

#[test]
fn other_replies_keep_their_payload() {
    assert_eq!(Reply::parse(&[]), None);
    assert_eq!(Reply::parse(&[0x09]), None);
    assert_eq!(Reply::parse(&[0x09, 2]), Some(Reply::AudioParams { accepted: false }));
    assert_eq!(Reply::parse(&[0x04, 7]), Some(Reply::ReadIo(&[7])));
    assert_eq!(Reply::parse(&[0x02]), Some(Reply::ReadErp(&[])));
    assert_eq!(Reply::parse(&[0x03, 1, 2]), Some(Reply::ReadAnalog(&[1, 2])));
    assert_eq!(Reply::parse(&[0x7f, 1]), Some(Reply::Other { command: 0x7f, payload: &[1] }));
}

#[test]
fn requests_begin_with_their_command() {
    assert_eq!(auto_msg_request(1, 2, 3), [Command::AutoMsg.code(), 1, 2, 3]);
    assert_eq!(Command::AutoMsg.code(), 0x0b);
}
