use ak1::audio::Audio;
use ak1::mode2::{check_byte, to_be24};
use ak1::proto::SampleRate;
use ak1::rt::{RtStream, Slot};
use ak1::stream::{Engine, IsoPacket, OutPacket, Stats, PACKETS_PER_TRANSFER, TRANSFERS, TRANSFER_BYTES};

fn engine() -> Engine {
    let mut engine = Engine::new(SampleRate::Hz48000, 176, 10_000_000);
    engine.run();
    engine
}

/// A capture transfer whose packets hold the given number of frames each.
fn transfer(frames: [usize; PACKETS_PER_TRANSFER]) -> (Vec<IsoPacket>, Vec<u8>) {
    let mut packets = Engine::capture_packets();
    let mut buffer = vec![0; TRANSFER_BYTES];
    for (packet, frames) in packets.iter_mut().zip(frames) {
        packet.length = 16 * frames as u32;
        let mut at = packet.offset as usize;
        for block in 0..2 * frames {
            for stream in 0..2 {
                let [b0, b1, b2] = to_be24(100 * block as i32 + stream as i32);
                buffer[at + stream] = check_byte(stream, block);
                buffer[at + 2 + stream] = b0;
                buffer[at + 4 + stream] = b1;
                buffer[at + 6 + stream] = b2;
            }
            at += 8;
        }
    }
    (packets, buffer)
}

#[test]
fn capture_transfers_are_laid_out_packet_by_packet() {
    let packets = Engine::capture_packets();
    assert_eq!(packets.len(), 8);
    assert_eq!(packets[0], IsoPacket { offset: 0, length: 512, status: 0 });
    assert_eq!(packets[7], IsoPacket { offset: 3584, length: 512, status: 0 });
}

#[test]
fn playback_packets_have_the_lengths_of_capture_packets() {
    let mut engine = engine();
    let (packets, buffer) = transfer([6, 6, 7, 5, 6, 6, 0, 6]);
    let answer = engine.answer(&mut Audio::new(), &packets, &buffer, 1_000_000);
    let playback = answer.playback.unwrap();
    assert_eq!(playback.transfer, 0);
    let lengths: Vec<u32> = playback.packets.iter().map(|packet| packet.length).collect();
    assert_eq!(lengths, [96, 96, 112, 80, 96, 96, 0, 96]);
    assert_eq!(playback.packets[3], OutPacket { offset: 304, length: 80 });
    assert_eq!(playback.data.len(), 672);
    // Silence, but for the check bytes.
    assert_eq!(playback.data[..16], [0, 0, 0, 0, 1, 3, 0, 0, 0, 0, 0, 0, 0, 2, 0, 0]);
    assert_eq!(engine.stats().frames, 42);
    assert_eq!(engine.stats().invalid_packets, 0);
}

#[test]
fn lost_packets_are_answered_with_the_nominal_length() {
    let mut engine = Engine::new(SampleRate::Hz44100, 160, 10_000_000);
    let mut packets = Engine::capture_packets();
    packets[3].status = -1;
    packets[3].length = 80;
    let answer = engine.answer(&mut Audio::new(), &packets, &vec![0; TRANSFER_BYTES], 1_000_000);
    // 44100 / 8000 = 5.5125, and every other packet one frame more until it is made up.
    let frames: Vec<u32> = answer.playback.unwrap().packets.iter().map(|packet| packet.length / 16).collect();
    assert_eq!(frames, [5, 6, 5, 6, 5, 6, 5, 6]);
    assert_eq!(engine.stats().invalid_packets, 8);
    assert_eq!(engine.stats().frames, 0);
}

#[test]
fn captured_frames_reach_the_input_stream() {
    let mut audio = Audio::new();
    audio.claim_rate(SampleRate::Hz48000).unwrap();
    let id = audio.add_stream(RtStream::new(Slot::Input12, SampleRate::Hz48000, 32));
    audio.allocate_packets(id, 1, 16, Some(vec![vec![0; 4096]])).unwrap();
    audio.run(id);
    let mut engine = engine();
    let (packets, buffer) = transfer([2, 0, 0, 0, 0, 0, 0, 0]);
    let answer = engine.answer(&mut audio, &packets, &buffer, 100_000);
    // The first of eight packets ended seven microframes before the last.
    let first_packet = 100_000 - 7 * 1250;
    assert_eq!(audio.position(id), (2, first_packet));
    assert_eq!(answer.completions.len(), 1);
    assert_eq!(answer.completions[0].completion.qpc, first_packet);
}

#[test]
fn played_frames_come_from_the_output_streams() {
    let mut audio = Audio::new();
    audio.claim_rate(SampleRate::Hz48000).unwrap();
    let id = audio.add_stream(RtStream::new(Slot::Output12, SampleRate::Hz48000, 16));
    let mut memory = vec![0; 4096];
    memory[4092..].copy_from_slice(&[0x22, 0x11, 0x44, 0x33]);
    audio.allocate_packets(id, 1, 4, Some(vec![memory])).unwrap();
    audio.run(id);
    let (packets, buffer) = transfer([1, 0, 0, 0, 0, 0, 0, 0]);
    let answer = engine().answer(&mut audio, &packets, &buffer, 100_000);
    let data = answer.playback.unwrap().data;
    assert_eq!(data, [0, 0, 0, 0, 1, 3, 0x11, 0, 0x22, 0, 0x00, 0, 0, 2, 0x33, 0]);
}

#[test]
fn damaged_packets_are_not_delivered() {
    let mut audio = Audio::new();
    audio.claim_rate(SampleRate::Hz48000).unwrap();
    let id = audio.add_stream(RtStream::new(Slot::Input12, SampleRate::Hz48000, 32));
    audio.run(id);
    let mut engine = engine();
    let (packets, mut buffer) = transfer([6, 0, 0, 0, 0, 0, 0, 0]);
    buffer[0] = 0x80 | 7;
    engine.answer(&mut audio, &packets, &buffer, 100_000);
    let stats = engine.stats();
    assert_eq!((stats.check_errors, stats.rejected_packets, stats.frames), (1, 1, 6));
    assert_eq!(audio.position(id).0, 6);
}

#[test]
fn answers_overrun_when_all_playback_transfers_are_busy() {
    let mut engine = engine();
    let (packets, buffer) = transfer([6; 8]);
    let mut audio = Audio::new();
    for i in 0..TRANSFERS {
        assert_eq!(engine.answer(&mut audio, &packets, &buffer, 100_000).playback.unwrap().transfer, i);
    }
    assert!(engine.answer(&mut audio, &packets, &buffer, 100_000).playback.is_none());
    assert_eq!(engine.stats().playback_overruns, 1);
    engine.playback_completed(5, 0);
    assert_eq!(engine.answer(&mut audio, &packets, &buffer, 100_000).playback.unwrap().transfer, 5);
    engine.playback_sent(5, Err(-1));
    engine.playback_sent(4, Ok(()));
    assert_eq!(engine.stats().playback_failures, 1);
    assert_eq!(engine.stats().playback_transfers, 1);
    assert_eq!(engine.answer(&mut audio, &packets, &buffer, 100_000).playback.unwrap().transfer, 5);
}

#[test]
fn empty_answers_are_not_sent() {
    let mut engine = engine();
    let (packets, buffer) = transfer([0; 8]);
    assert!(engine.answer(&mut Audio::new(), &packets, &buffer, 100_000).playback.is_none());
    assert_eq!(engine.stats(), Stats::default());
    let (packets, buffer) = transfer([1; 8]);
    assert_eq!(engine.answer(&mut Audio::new(), &packets, &buffer, 100_000).playback.unwrap().transfer, 0);
}

#[test]
fn failed_captures_are_counted_and_not_answered() {
    let mut engine = engine();
    assert!(engine.is_running());
    assert!(engine.capture_completed(0));
    assert!(!engine.capture_completed(-1));
    engine.capture_resubmitted(Err(-2));
    engine.capture_resubmitted(Ok(()));
    engine.stop();
    assert!(!engine.capture_completed(0));
    assert_eq!(engine.stats().snapshot(), [2, 2, 0, 0, 0, 0, 0, 0, 0]);
}

#[test]
fn engines_are_idle_once_all_transfers_are_done() {
    let mut engine = engine();
    assert!(engine.is_idle());
    engine.begin_send();
    assert_eq!(engine.end_send(true, 0), Ok(()));
    engine.begin_send();
    assert_eq!(engine.end_send(false, -3), Err(-3));
    assert!(!engine.is_idle());
    engine.transfer_done();
    assert!(engine.is_idle());
}
