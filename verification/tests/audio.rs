use ak1::audio::{Audio, EngineStart};
use ak1::proto::{DeviceSpec, SampleRate};
use ak1::rt::{RtStream, Slot};
use ak1::status::{STATUS_DEVICE_NOT_READY, STATUS_NOT_SUPPORTED};

fn spec() -> DeviceSpec {
    DeviceSpec {
        fw_version: 0x16,
        hw_subtype: 0,
        num_erp: 1,
        num_analog_in: 0,
        num_digital_in: 3,
        num_digital_out: 4,
        num_analog_audio_out: 4,
        num_analog_audio_in: 2,
        num_digital_audio_out: 0,
        num_digital_audio_in: 0,
        num_midi_out: 1,
        num_midi_in: 1,
        data_alignment: 2,
    }
}

fn with_stream(rate: SampleRate, slot: Slot) -> (Audio, usize) {
    let mut audio = Audio::new();
    audio.claim_rate(rate).unwrap();
    let id = audio.add_stream(RtStream::new(slot, rate, 16));
    (audio, id)
}

#[test]
fn first_stream_fixes_the_rate_until_all_are_gone() {
    let (mut audio, first) = with_stream(SampleRate::Hz48000, Slot::Output12);
    assert_eq!(audio.claim_rate(SampleRate::Hz44100), Err(STATUS_NOT_SUPPORTED));
    assert_eq!(audio.claim_rate(SampleRate::Hz48000), Ok(()));
    let second = audio.add_stream(RtStream::new(Slot::Output34, SampleRate::Hz48000, 32));
    audio.remove_stream(first);
    assert_eq!(audio.claim_rate(SampleRate::Hz44100), Err(STATUS_NOT_SUPPORTED));
    audio.remove_stream(second);
    assert_eq!(audio.claim_rate(SampleRate::Hz44100), Ok(()));
}

#[test]
fn places_of_streams_that_are_gone_are_used_again() {
    let (mut audio, first) = with_stream(SampleRate::Hz48000, Slot::Output12);
    let mut add = |audio: &mut Audio, slot: Slot| {
        audio.claim_rate(SampleRate::Hz48000).unwrap();
        audio.add_stream(RtStream::new(slot, SampleRate::Hz48000, 32))
    };
    assert_eq!((first, add(&mut audio, Slot::Output34)), (0, 1));
    audio.remove_stream(first);
    assert_eq!(add(&mut audio, Slot::Input12), 0);
    assert_eq!((audio.stream(0).slot(), audio.stream(1).slot()), (Slot::Input12, Slot::Output34));
    assert_eq!(add(&mut audio, Slot::Output12), 2);
    assert_eq!(audio.claimed(), 3);
}

#[test]
fn released_claims_free_the_clock() {
    let mut audio = Audio::new();
    audio.claim_rate(SampleRate::Hz96000).unwrap();
    audio.release_rate();
    assert_eq!(audio.claim_rate(SampleRate::Hz192000), Ok(()));
}

#[test]
fn preparing_needs_the_device() {
    let (mut audio, id) = with_stream(SampleRate::Hz48000, Slot::Output12);
    assert_eq!(audio.prepare(id), Err(STATUS_DEVICE_NOT_READY));
    audio.attach(spec());
    // 6 + 5 frames of two streams of two 4-byte samples.
    let start = EngineStart { rate: SampleRate::Hz48000, max_packet_bytes: 11 * 16 };
    assert_eq!(audio.prepare(id), Ok(Some(start)));
}

#[test]
fn engine_runs_while_streams_are_prepared() {
    let (mut audio, id) = with_stream(SampleRate::Hz48000, Slot::Output12);
    audio.attach(spec());
    audio.prepare(id).unwrap();
    assert_eq!(audio.engine_started(Ok(())), Ok(()));
    assert_eq!(audio.prepare(id), Ok(None));
    assert!(!audio.release(id));
    assert!(audio.release(id));
    assert!(!audio.release(id));
}

#[test]
fn failed_engine_is_not_running() {
    let (mut audio, id) = with_stream(SampleRate::Hz48000, Slot::Output12);
    audio.attach(spec());
    audio.prepare(id).unwrap();
    assert_eq!(audio.engine_started(Err(-5)), Err(-5));
    assert!(!audio.suspend());
}

#[test]
fn power_loss_is_made_up_for() {
    let (mut audio, id) = with_stream(SampleRate::Hz88200, Slot::Output12);
    audio.attach(spec());
    assert_eq!(audio.resume(), Ok(None));
    audio.prepare(id).unwrap();
    audio.engine_started(Ok(())).unwrap();
    assert_eq!(audio.resume(), Ok(None));
    assert!(audio.suspend());
    let start = EngineStart { rate: SampleRate::Hz88200, max_packet_bytes: 16 * 16 };
    assert_eq!(audio.resume(), Ok(Some(start)));
    assert_eq!(audio.engine_resumed(Ok(())), Ok(()));
    assert!(audio.release(id));
}

#[test]
fn running_streams_move_and_others_are_silent() {
    let (mut audio, id) = with_stream(SampleRate::Hz48000, Slot::Output34);
    let mut memory = vec![0; 4096];
    memory[4092..].copy_from_slice(&[1, 0, 2, 0]);
    audio.allocate_packets(id, 1, 4, Some(vec![memory])).unwrap();
    let mut completions = Vec::new();
    assert_eq!(audio.render(1, &mut completions), [0, 0, 0, 0]);
    audio.run(id);
    assert_eq!(audio.render(2, &mut completions), [0, 0, 256, 512]);
    assert_eq!(completions.len(), 1);
    assert_eq!((completions[0].slot, completions[0].completion.packet), (Slot::Output34, 0));
    assert_eq!(audio.position(id), (1, 2));
    audio.pause(id);
    assert_eq!(audio.render(3, &mut completions), [0, 0, 0, 0]);
    assert_eq!(audio.position(id), (1, 2));
}

#[test]
fn pausing_leaves_another_stream_of_the_slot_alone() {
    let (mut audio, first) = with_stream(SampleRate::Hz48000, Slot::Input12);
    audio.claim_rate(SampleRate::Hz48000).unwrap();
    let second = audio.add_stream(RtStream::new(Slot::Input12, SampleRate::Hz48000, 16));
    audio.run(first);
    audio.run(second);
    audio.pause(first);
    let mut completions = Vec::new();
    audio.capture([1, 2], 9, &mut completions);
    assert_eq!((audio.position(first), audio.position(second)), ((0, 0), (1, 9)));
    audio.free_packets(second);
    assert_eq!(audio.stream(second).slot(), Slot::Input12);
}
