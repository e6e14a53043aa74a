use ak1::mode2::{
    check_byte, decode_capture, to_be24, CaptureStatus, PlaybackEncoder, BLOCK_BYTES, CHANNELS, FRAME_BYTES,
    OUTPUT_PANIC, STREAMS,
};

fn capture_block(block_index: usize, samples: [i32; STREAMS], panic: bool) -> [u8; BLOCK_BYTES] {
    let mut block = [0; BLOCK_BYTES];
    for stream in 0..STREAMS {
        block[stream] = check_byte(stream, block_index) | if panic { OUTPUT_PANIC } else { 0 };
        let [b0, b1, b2] = to_be24(samples[stream]);
        block[2 + stream] = b0;
        block[4 + stream] = b1;
        block[6 + stream] = b2;
    }
    block
}

#[test]
fn capture_even_block_is_right_channel() {
    let mut packet = [0; 2 * FRAME_BYTES];
    for (i, block) in packet.chunks_exact_mut(BLOCK_BYTES).enumerate() {
        let value = i as i32 + 1;
        block.copy_from_slice(&capture_block(i, [value, -value], false));
    }
    let (status, frames) = decode_capture(&packet);
    assert_eq!(status, CaptureStatus { frames: 2, check_errors: 0, output_rejected: false });
    assert_eq!(frames, [[2, 1, -2, -1], [4, 3, -4, -3]]);
}

#[test]
fn capture_reports_check_errors_and_output_rejection() {
    let mut packet = [0; FRAME_BYTES];
    packet[..BLOCK_BYTES].copy_from_slice(&capture_block(1, [0, 0], false));
    packet[BLOCK_BYTES..].copy_from_slice(&capture_block(1, [0, 0], true));
    let (status, _) = decode_capture(&packet);
    assert_eq!(status, CaptureStatus { frames: 1, check_errors: 2, output_rejected: true });
}

#[test]
fn capture_sign_extends_24_bit_samples() {
    let block = capture_block(0, [-0x80_0000, 0x7f_ffff], false);
    let mut packet = [0; FRAME_BYTES];
    packet[..BLOCK_BYTES].copy_from_slice(&block);
    packet[BLOCK_BYTES..].copy_from_slice(&capture_block(1, [0, 0], false));
    let (_, frames) = decode_capture(&packet);
    assert_eq!(frames, [[0, -0x80_0000, 0, 0x7f_ffff]]);
}

#[test]
fn playback_sample_starts_after_check_byte_and_spills_into_next_packet() {
    let mut encoder = PlaybackEncoder::default();
    let mut first = [0xee; FRAME_BYTES];
    encoder.encode(&mut first, &[[0x112233, 0x445566, 0x778899, -1]]);
    assert_eq!(
        first,
        [
            0x00, 0x00, 0x00, 0x00, 0x01, 0x03, 0x11, 0x77, // left starts
            0x22, 0x88, 0x33, 0x99, 0x00, 0x02, 0x44, 0xff, // left ends, right starts
        ]
    );
    let mut second = [0; FRAME_BYTES];
    encoder.encode(&mut second, &[[0; CHANNELS]]);
    assert_eq!(second[..BLOCK_BYTES], [0x55, 0xff, 0x66, 0xff, 0x01, 0x03, 0x00, 0x00]);
}

#[test]
fn playback_check_parity_restarts_each_packet() {
    let mut encoder = PlaybackEncoder::default();
    let mut packet = [0; 2 * FRAME_BYTES];
    encoder.encode(&mut packet, &[[0; CHANNELS]; 2]);
    let checks: [[u8; 2]; 4] = core::array::from_fn(|i| [packet[i * 8 + 4], packet[i * 8 + 5]]);
    assert_eq!(checks, [[1, 3], [0, 2], [1, 3], [0, 2]]);
}

#[test]
fn packets_join_without_a_seam() {
    let frames: Vec<[i32; CHANNELS]> = (0..6).map(|i| [i * 1000, -i, i * 77777, i - 5]).collect();
    let mut whole = vec![0; 6 * FRAME_BYTES];
    PlaybackEncoder::default().encode(&mut whole, &frames);
    let mut encoder = PlaybackEncoder::default();
    let mut parts = vec![0; 6 * FRAME_BYTES];
    let (first, second) = parts.split_at_mut(2 * FRAME_BYTES);
    encoder.encode(first, &frames[..2]);
    encoder.encode(second, &frames[2..]);
    assert_eq!(whole, parts);
}

#[test]
fn partial_frames_are_left_alone() {
    let mut packet = [0xee; FRAME_BYTES + 5];
    PlaybackEncoder::default().encode(&mut packet, &[[0; CHANNELS]]);
    assert_eq!(packet[FRAME_BYTES..], [0xee; 5]);
    assert_eq!(decode_capture(&packet).0.frames, 1);
    let nothing = CaptureStatus { frames: 0, check_errors: 0, output_rejected: false };
    assert_eq!((decode_capture(&[]).0, CaptureStatus::default()), (nothing, nothing));
}
