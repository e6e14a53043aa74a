use ak1::abi::{AsioBufferInfo, AsioU64};
use ak1::driver::Driver;
use ak1::duplex::{
    endpoint_slot, event, find_endpoints, nanoseconds, open_step, period, stream_format, Clock, Endpoints, Event, Host,
    OpenStep, Switch, Worker, AUDCLNT_E_BUFFER_SIZE_NOT_ALIGNED, WAIT_TIMEOUT,
};
use ak1::rt::Slot;
use ak1::settings::Settings;

const PATH: &str = "{2}.\\\\?\\USB#VID_17CC&PID_0815#sn#{6994ad04-93ef-11d0-a3cc-00a0c9223196}";

fn path(name: &str) -> Option<String> {
    Some(format!("{PATH}\\{name}"))
}

fn host(infos: &[AsioBufferInfo]) -> Host {
    let mut driver = Driver::new(Settings::default());
    driver.init(Ok(true));
    driver.create_buffers(Some(infos), true, infos.len() as i32, 256).unwrap()
}

fn channel(is_input: i32, channel_num: i32) -> AsioBufferInfo {
    AsioBufferInfo { is_input, channel_num }
}

#[test]
fn endpoints_are_told_by_the_path_of_their_filter() {
    assert_eq!(endpoint_slot(&path("Output12").unwrap()), Some(Slot::Output12));
    assert_eq!(endpoint_slot(&path("OUTPUT34").unwrap()), Some(Slot::Output34));
    assert_eq!(endpoint_slot(&path("input12").unwrap()), Some(Slot::Input12));
    assert_eq!(endpoint_slot(&path("input34").unwrap()), None);
    assert_eq!(endpoint_slot("usb#vid_17cc&pid_0816\\output12"), None);
}

#[test]
fn all_three_endpoints_are_needed() {
    let mut paths = vec![path("output12"), None, path("input12"), path("output34"), path("output12")];
    assert_eq!(find_endpoints(&paths), Some(Endpoints { output12: 4, output34: 3, input12: 2 }));
    paths[3] = None;
    assert_eq!(find_endpoints(&paths), None);
}

#[test]
fn periods_are_rounded_to_the_nearest() {
    assert_eq!(period(480, 48_000), 100_000);
    assert_eq!(period(256, 48_000), 53_333);
    assert_eq!(period(512, 88_200), 58_050);
}

#[test]
fn streams_are_stereo_with_24_bits_in_32() {
    let format = stream_format(96_000);
    assert_eq!((format.channels, format.samples_per_sec, format.avg_bytes_per_sec), (2, 96_000, 768_000));
    assert_eq!((format.block_align, format.bits_per_sample, format.valid_bits_per_sample), (8, 32, 24));
}

#[test]
fn unaligned_buffers_are_tried_again() {
    assert_eq!(open_step(Ok(())), OpenStep::Opened);
    assert_eq!(open_step(Err(AUDCLNT_E_BUFFER_SIZE_NOT_ALIGNED)), OpenStep::Align);
    assert_eq!(open_step(Err(-7)), OpenStep::Failed(-7));
}

#[test]
fn waits_end_with_events() {
    assert_eq!(event(WAIT_TIMEOUT), Event::Wait);
    assert_eq!([0, 1, 2, 3, 4].map(event), [
        Event::Stop,
        Event::Capture,
        Event::Render(0),
        Event::Render(1),
        Event::Stop
    ]);
    assert_eq!(event(u32::MAX), Event::Stop);
}

#[test]
fn counters_become_nanoseconds() {
    assert_eq!(nanoseconds(10_000_000, 10_000_000), 1_000_000_000);
    assert_eq!(nanoseconds(1, 3), 333_333_333);
    assert_eq!(nanoseconds(i64::MAX, 1), ((i64::MAX as u128 * 1_000_000_000) % (1 << 64)) as u64);
    assert_eq!(nanoseconds(5, -1), 0);
}

#[test]
fn switches_tell_their_time() {
    let switch = Switch { index: 1, position: 0x2_0000_0001, now_ns: 9 };
    assert_eq!(switch.clock(), Clock { sample_position: 0x2_0000_0001, system_time_ns: 9 });
    let time = switch.time(44_100);
    assert_eq!(time.sample_position, AsioU64 { hi: 2, lo: 1 });
    assert_eq!((time.system_time, time.sample_rate, time.flags), (AsioU64 { hi: 0, lo: 9 }, 44_100, 7));
    assert_eq!(Clock::default(), Clock { sample_position: 0, system_time_ns: 0 });
}

#[test]
fn hosts_find_captured_frames_in_alternating_halves() {
    let mut worker = Worker::new(host(&[channel(1, 0), channel(1, 1), channel(0, 0)]));
    let frames: Vec<[i32; 2]> = (0..512).map(|i| [i, -i]).collect();
    worker.capture(&frames[..255]);
    assert!(!worker.is_ready());
    worker.capture(&frames[255..]);
    assert!(worker.is_ready());
    let first = worker.begin_switch(20_000_000, 10_000_000);
    assert_eq!(first, Switch { index: 0, position: 0, now_ns: 2_000_000_000 });
    assert_eq!((worker.host().buffers[0][255], worker.host().buffers[1][255]), (255, -255));
    assert_eq!(worker.host().buffers[0][256], 0);
    worker.end_switch();
    let second = worker.begin_switch(30_000_000, 10_000_000);
    assert_eq!(second, Switch { index: 1, position: 256, now_ns: 3_000_000_000 });
    assert_eq!((worker.host().buffers[0][256], worker.host().buffers[1][511]), (256, -511));
    worker.end_switch();
    assert!(!worker.is_ready());
    assert_eq!(worker.host().buffers[2], vec![0; 512]);
    assert_eq!(worker.into_host().buffers[0][256..258], [256, 257]);
}

#[test]
fn outputs_follow_a_block_of_silence() {
    let mut worker = Worker::new(host(&[channel(0, 1), channel(0, 2)]));
    worker.capture(&[[0; 2]; 256]);
    worker.begin_switch(1, 1);
    worker.buffers_mut()[0][..256].fill(7);
    worker.buffers_mut()[1][..256].fill(8);
    worker.end_switch();
    assert_eq!(worker.feed_render(0, 256), vec![[0, 0]; 256]);
    assert_eq!(worker.feed_render(0, 100), vec![[0, 7]; 100]);
    let rest = worker.feed_render(0, 200);
    assert_eq!((rest[155], rest[156]), ([0, 7], [0, 0]));
    let other = worker.feed_render(1, 512);
    assert_eq!((other[255], other[256], other[511]), ([0, 0], [8, 0], [8, 0]));
}

#[test]
fn outputs_drop_the_oldest_of_more_than_four_blocks() {
    let mut worker = Worker::new(host(&[channel(0, 0)]));
    for i in 1..=5 {
        worker.capture(&[[0; 2]; 256]);
        let half = 256 * worker.begin_switch(1, 1).index;
        worker.buffers_mut()[0][half..half + 256].fill(i);
        worker.end_switch();
    }
    let fed = worker.feed_render(0, 4 * 256 + 1);
    assert_eq!([fed[0], fed[256], fed[512], fed[768], fed[1024]], [[2, 0], [3, 0], [4, 0], [5, 0], [0, 0]]);
}
