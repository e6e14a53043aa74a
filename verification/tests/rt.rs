use ak1::proto::SampleRate;
use ak1::rt::{hw_latency, presentation_position, Completion, RtPacket, RtStream, Slot};
use ak1::status::{
    STATUS_DATA_LATE_ERROR, STATUS_DATA_OVERRUN, STATUS_INSUFFICIENT_RESOURCES, STATUS_INVALID_PARAMETER, STATUS_SUCCESS,
};

fn stream(slot: Slot, bits: u32) -> RtStream {
    RtStream::new(slot, SampleRate::Hz48000, bits)
}

fn pages(count: usize) -> Option<Vec<Vec<u8>>> {
    Some(vec![vec![0; 4096]; count])
}

#[test]
fn slots_are_numbered_in_order() {
    assert_eq!(Slot::ALL.map(|slot| slot.index()), [0, 1, 2]);
    assert_eq!(Slot::ALL.map(|slot| slot.is_capture()), [false, false, true]);
}

#[test]
fn packets_take_whole_pages_and_the_first_ends_on_one() {
    let mut rt = stream(Slot::Output12, 32);
    assert_eq!(rt.plan_packets(2, 3840), Ok(4096));
    assert_eq!(rt.plan_packets(1, 4104), Ok(8192));
    let packets = rt.allocate_packets(2, 3840, pages(2)).unwrap();
    assert_eq!(
        packets,
        [
            RtPacket { buffer_length: 4096, offset: 256, size: 3840 },
            RtPacket { buffer_length: 4096, offset: 0, size: 3840 },
        ]
    );
}

#[test]
fn unsuitable_packets_are_refused() {
    let mut rt = stream(Slot::Output12, 32);
    for (count, bytes) in [(0, 64), (9, 64), (1, 0), (1, 12)] {
        assert_eq!(rt.plan_packets(count, bytes), Err(STATUS_INVALID_PARAMETER));
        assert_eq!(rt.allocate_packets(count, bytes, None).err(), Some(STATUS_INVALID_PARAMETER));
    }
}

#[test]
fn missing_memory_leaves_no_packets() {
    let mut rt = stream(Slot::Input12, 16);
    assert!(rt.allocate_packets(1, 4, pages(1)).is_ok());
    assert_eq!(rt.allocate_packets(2, 4, None).err(), Some(STATUS_INSUFFICIENT_RESOURCES));
    // Without room to describe them the packets of before are still there.
    assert_eq!(rt.capture_frame([0, 0], 5), Some(Completion { packet: 0, qpc: 5 }));
    assert_eq!(rt.allocate_packets(2, 4, pages(1)).err(), Some(STATUS_INSUFFICIENT_RESOURCES));
    assert_eq!(rt.capture_frame([0, 0], 6), None);
    assert_eq!(rt.position(), (2, 6));
}

#[test]
fn wide_frames_are_rendered_from_their_upper_bits() {
    let mut rt = stream(Slot::Output12, 32);
    let mut memory = vec![0; 4096];
    memory[4096 - 16..].copy_from_slice(&[
        0xff, 0x33, 0x22, 0x11, 0x00, 0xff, 0xff, 0xff, // 0x112233 and -1
        0x00, 0x00, 0x00, 0x80, 0x00, 0xff, 0xff, 0x7f, // the least and the greatest sample
    ]);
    rt.allocate_packets(1, 16, Some(vec![memory])).unwrap();
    assert_eq!(rt.render_frame(10), ([0x112233, -1], None));
    assert_eq!(rt.render_frame(20), ([-0x80_0000, 0x7f_ffff], Some(Completion { packet: 0, qpc: 20 })));
    // The ring starts over.
    assert_eq!(rt.render_frame(30).0, [0x112233, -1]);
    assert_eq!(rt.position(), (3, 30));
}

#[test]
fn narrow_frames_are_rendered_as_24_bits() {
    let mut rt = stream(Slot::Output34, 16);
    let mut memory = vec![0; 4096];
    memory[4092..].copy_from_slice(&[0x34, 0x12, 0xff, 0xff]);
    rt.allocate_packets(1, 4, Some(vec![memory])).unwrap();
    assert_eq!(rt.render_frame(1).0, [0x123400, -256]);
}

#[test]
fn streams_without_packets_play_silence_and_stay() {
    let mut rt = stream(Slot::Output12, 32);
    assert_eq!(rt.render_frame(7), ([0, 0], None));
    assert_eq!(rt.position(), (0, 0));
}

#[test]
fn captured_frames_read_back() {
    let mut rt = stream(Slot::Input12, 32);
    rt.allocate_packets(2, 8, pages(2)).unwrap();
    assert_eq!(rt.capture_frame([-2, 0x123456], 1), Some(Completion { packet: 0, qpc: 1 }));
    assert_eq!(rt.capture_frame([3, -4], 2), Some(Completion { packet: 1, qpc: 2 }));
    assert_eq!(rt.current_packet(), 2);
    assert_eq!(rt.capture_packet(), (1, 2));
    rt.reset();
    assert_eq!(rt.render_frame(3).0, [-2, 0x123456]);
    assert_eq!(rt.render_frame(4).0, [3, -4]);
}

#[test]
fn narrow_captures_lose_the_low_byte() {
    let mut rt = stream(Slot::Input12, 16);
    rt.allocate_packets(1, 4, pages(1)).unwrap();
    rt.capture_frame([0x1234ff, -1], 1);
    rt.reset();
    assert_eq!(rt.render_frame(2).0, [0x123400, -256]);
}

#[test]
fn packets_finish_in_order() {
    let mut rt = stream(Slot::Output12, 16);
    rt.allocate_packets(2, 12, pages(2)).unwrap();
    let finished: Vec<u64> =
        (0..9).filter_map(|qpc| rt.render_frame(qpc).1).map(|completion| completion.packet).collect();
    assert_eq!(finished, [0, 1, 2]);
}

#[test]
fn render_packets_are_late_due_or_early() {
    let mut rt = stream(Slot::Output12, 16);
    rt.allocate_packets(1, 4, pages(1)).unwrap();
    rt.render_frame(1);
    assert_eq!(rt.set_render_packet(1), STATUS_DATA_LATE_ERROR);
    assert_eq!(rt.set_render_packet(2), STATUS_SUCCESS);
    assert_eq!(rt.set_render_packet(3), STATUS_DATA_OVERRUN);
}

#[test]
fn nothing_captured_yet_is_the_packet_before_the_first() {
    assert_eq!(stream(Slot::Input12, 16).capture_packet(), (u32::MAX, 0));
}

#[test]
fn freed_packets_are_gone() {
    let mut rt = stream(Slot::Output12, 16);
    rt.allocate_packets(1, 4, pages(1)).unwrap();
    rt.free_packets();
    assert_eq!(rt.render_frame(9), ([0, 0], None));
}

#[test]
fn streams_that_have_not_moved_are_here_now() {
    assert_eq!(presentation_position((0, 0), 77), (0, 77));
    assert_eq!(presentation_position((5, 66), 77), (5, 66));
    assert_eq!(hw_latency(), (0, 0));
}
