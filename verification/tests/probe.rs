use ak1::probe::{
    capture_rate, check_written, command, find, find_failure, first_path, is_float, open_again, open_plan, opened,
    rejected, submitted, unsupported_rate,
    CaptureTotals, ClockReport, Command, Endpoint, FindFault, OpenPlan, Opened, PlayClock, RateFault, RecordTotals,
    Sample, TransferRing, E_ACCESSDENIED, NOT_FLOAT, USAGE,
};
use ak1::proto::{DeviceSpec, SampleRate};
use ak1::stream::IsoPacket;

fn args(texts: &[&str]) -> Vec<String> {
    texts.iter().map(|text| text.to_string()).collect()
}

fn packet(offset: u32, length: u32, status: i32) -> IsoPacket {
    IsoPacket { offset, length, status }
}

#[test]
fn probe_arguments_name_commands() {
    assert_eq!(command(&args(&["info"])), Ok(Command::Info));
    assert_eq!(command(&args(&["capture", "48000", "1"])), Ok(Command::Capture));
    assert_eq!(command(&args(&["capture", "48000", "1", "f"])), Ok(Command::Capture));
    assert_eq!(command(&args(&["endpoints"])), Ok(Command::Endpoints));
    assert_eq!(command(&args(&["identify", "output12"])), Ok(Command::Identify));
    assert_eq!(command(&args(&["play", "e", "1", "440", "48000"])), Ok(Command::Play));
    assert_eq!(command(&args(&["record", "e", "1"])), Ok(Command::Record));
    for wrong in [&[][..], &["info", "x"], &["capture", "1"], &["play", "e", "1"], &["Info"]] {
        assert_eq!(command(&args(wrong)), Err(USAGE));
    }
}

#[test]
fn capture_rates_are_those_of_the_device() {
    assert_eq!(capture_rate("96000"), Ok(SampleRate::Hz96000));
    assert_eq!(capture_rate("+44100"), Ok(SampleRate::Hz44100));
    assert_eq!(capture_rate("8000"), Err(RateFault::Unsupported(8000)));
    assert_eq!(capture_rate("4294967296"), Err(RateFault::NotANumber));
    assert_eq!(capture_rate("48k"), Err(RateFault::NotANumber));
    assert_eq!(capture_rate(""), Err(RateFault::NotANumber));
}

#[test]
fn busy_devices_are_opened_again() {
    assert!(open_again(29, E_ACCESSDENIED));
    assert!(!open_again(30, E_ACCESSDENIED));
    assert!(!open_again(0, -1));
}

#[test]
fn first_path_keeps_its_nul() {
    assert_eq!(first_path(&[65, 66, 0, 67, 0, 0]), Some(vec![65, 66, 0]));
    assert_eq!(first_path(&[0, 65]), None);
    assert_eq!(first_path(&[65]), None);
}

#[test]
fn transfers_take_turns() {
    let mut ring = TransferRing::new(512, 64, 2);
    let place = ring.place(1);
    assert_eq!((place.first_packet, place.offset, place.bytes), (64, 32_768, 32_768));
    ring.advance();
    assert_eq!(ring.next, 1);
    ring.advance();
    assert_eq!(ring.next, 0);
}

#[test]
fn captures_count_from_the_first_bytes_on() {
    let mut totals = CaptureTotals::new();
    let data: Vec<u8> = (0..100).collect();
    assert_eq!(totals.add_transfer(&[packet(0, 0, 0), packet(0, 0, -1)], Some(&data)), []);
    assert_eq!((totals.packets(), totals.failed()), (1, 1));
    let packets = [packet(10, 2, 0), packet(0, 0, 0), packet(20, 2, 0), packet(90, 50, 5)];
    assert_eq!(totals.add_transfer(&packets, Some(&data)), [10, 11, 20, 21]);
    assert_eq!((totals.packets(), totals.failed(), totals.bytes()), (5, 2, 4));
    assert_eq!(totals.lengths().iter().map(|(k, v)| (*k, *v)).collect::<Vec<_>>(), [(0, 1), (2, 2)]);
    let (format, packets, frames) = totals.report(48_000, 176, 3);
    assert_eq!(format, "rate 48000 Hz, max packet 176 B, frame 3 B");
    assert_eq!(packets, "packets 5, failed 2, bytes 4, remainder 1 B");
    assert_eq!(frames, 1);
}

#[test]
fn counting_in_parts_is_counting_at_once() {
    let packets: Vec<IsoPacket> = (0..6).map(|i| packet(0, i % 3, if i == 4 { 1 } else { 0 })).collect();
    let data = [0; 8];
    let mut whole = CaptureTotals::new();
    whole.add_transfer(&packets, Some(&data));
    let mut parts = CaptureTotals::new();
    parts.add_transfer(&packets[..2], Some(&data));
    parts.add_transfer(&packets[2..], Some(&data));
    assert_eq!((whole.packets(), whole.bytes()), (parts.packets(), parts.bytes()));
    assert_eq!(whole.lengths(), parts.lengths());
}

#[test]
fn frames_hold_all_channels() {
    let spec = DeviceSpec {
        fw_version: 0,
        hw_subtype: 0,
        num_erp: 0,
        num_analog_in: 0,
        num_digital_in: 0,
        num_digital_out: 0,
        num_analog_audio_out: 4,
        num_analog_audio_in: 2,
        num_digital_audio_out: 0,
        num_digital_audio_in: 0,
        num_midi_out: 0,
        num_midi_in: 0,
        data_alignment: 2,
    };
    assert_eq!(CaptureTotals::frame_bytes(&spec), 16);
    assert_eq!(CaptureTotals::frame_bytes(&DeviceSpec { data_alignment: 0, ..spec }), 12);
}

#[test]
fn packets_are_counted_without_their_bytes() {
    let mut totals = CaptureTotals::new();
    assert_eq!(totals.add_transfer(&[packet(90_000, 0, 0), packet(90_000, 3, 0)], None), []);
    assert_eq!((totals.packets(), totals.failed(), totals.bytes()), (1, 0, 3));
    let mut skipping = CaptureTotals::new();
    assert_eq!(skipping.add_transfer(&[packet(90_000, 0, 0), packet(1, 1, 0)], Some(&[5, 6])), [6]);
}

#[test]
fn one_endpoint_has_to_match() {
    let endpoints = [("{0}.a", "Line (Audio Kontrol 1)"), ("{0}.b", "Line (Audio Kontrol 1)"), ("{1}", "Speakers")]
        .map(|(id, name)| Endpoint { id: id.into(), name: name.into(), path: None });
    assert_eq!(find(&endpoints, ".b"), Ok(1));
    assert_eq!(find(&endpoints, "Speak"), Ok(2));
    assert_eq!(find(&endpoints, "Kontrol"), Err(FindFault::Many(2)));
    assert_eq!(find(&endpoints, "nothing"), Err(FindFault::NoMatch));
    assert_eq!(find(&endpoints, ""), Err(FindFault::Many(3)));
}

#[test]
fn device_endpoints_are_found_by_their_filter() {
    let filter = "{2}.\\\\?\\usb#vid_17cc&pid_0815#1#{6994ad04}\\";
    let endpoints = ["Output12", "Output34", "Input12"].map(|circuit| Endpoint {
        id: "{0}".into(),
        name: "Line (Audio Kontrol 1)".into(),
        path: Some(format!("{filter}{circuit}")),
    });
    assert_eq!(find(&endpoints, "output12"), Ok(0));
    assert_eq!(find(&endpoints, "output34"), Ok(1));
    assert_eq!(find(&endpoints, "input12"), Ok(2));
    for needle in ["Output12", "put12", "output1", "{6994ad04}\\output12"] {
        assert_eq!(find(&endpoints, needle), Err(FindFault::NoMatch), "{needle}");
    }
    let [card, ..] = endpoints;
    let other = |id: &str, path: &str| Endpoint { id: id.into(), name: "Other".into(), path: Some(path.into()) };
    let foreign = other("{1}", "usb#vid_0001&pid_0001#1\\output12");
    assert_eq!(find(&[foreign], "output12"), Err(FindFault::NoMatch));
    assert_eq!(find(&[other("{1}", "hda\\wave")], "wave"), Err(FindFault::NoMatch));
    let named = Endpoint { id: "{2}".into(), name: "My output12".into(), path: None };
    assert_eq!(find(&[card, named], "output12"), Ok(1));
}

#[test]
fn failures_say_what_was_wrong() {
    assert_eq!(find_failure(FindFault::NoMatch, "\"x\""), "no active endpoint matches \"x\"");
    assert_eq!(find_failure(FindFault::Many(3), "\"\""), "3 endpoints match \"\"; use more of the id");
    assert_eq!(unsupported_rate(8000), "unsupported sample rate 8000");
    assert_eq!(rejected(48_000, 176), "device rejected 48000 Hz, max packet 176");
}

#[test]
fn float_formats_are_recognized() {
    let float = 0x00000003_0000_0010_8000_00aa00389b71;
    assert!(is_float(3, 32, 0));
    assert!(is_float(0xfffe, 32, float));
    assert!(!is_float(0xfffe, 16, float));
    assert!(!is_float(0xfffe, 32, float - 2));
    assert!(!is_float(1, 32, float));
}

#[test]
fn clocks_are_reported_every_second() {
    let mut clock = PlayClock::new();
    assert_eq!(clock.update(0, 500_000_000), None);
    assert_eq!(clock.update(100, 900_000_000), None);
    assert_eq!(clock.update(200, 1_900_000_000), None);
    let report = ClockReport { second: 1, positions: 101, nanoseconds: 1_000_000_001 };
    assert_eq!(clock.update(201, 1_900_000_001), Some(report));
    assert_eq!(clock.update(300, 1_999_999_999), None);
    assert_eq!(clock.update(300, 2_000_000_000).map(|report| report.second), Some(2));
}

#[test]
fn recordings_count_gaps() {
    let mut totals = RecordTotals::new();
    totals.add_packet(480, 1);
    totals.add_packet(480, 2);
    totals.add_packet(10, 3);
    assert_eq!(totals, RecordTotals { frames: 970, discontinuities: 2 });
}

#[test]
fn endpoints_are_opened_shared_or_exclusively() {
    assert_eq!(open_plan(None), OpenPlan { exclusive: false, buffer_hns: 1_000_000, period_hns: 0 });
    assert_eq!(open_plan(Some(48_000)), OpenPlan { exclusive: true, buffer_hns: 200_000, period_hns: 100_000 });
    assert_eq!(opened(None, 44_100, 6, true), Ok(Opened { rate: 44_100, channels: 6, sample: Sample::Float }));
    assert_eq!(opened(None, 44_100, 2, false), Err(NOT_FLOAT));
    let exclusive = Opened { rate: 96_000, channels: 2, sample: Sample::Int32 };
    assert_eq!(opened(Some(96_000), 44_100, 6, false), Ok(exclusive));
}

#[test]
fn pending_transfers_are_queued() {
    assert_eq!(submitted(Ok(())), Ok(()));
    assert_eq!(submitted(Err(0x8007_03e5_u32 as i32)), Ok(()));
    assert_eq!(submitted(Err(997)), Err(997));
}

#[test]
fn short_writes_are_reported() {
    assert_eq!(check_written(9, 6, 6), Ok(()));
    assert_eq!(check_written(0x0b, 3, 4), Err("command 0x0b: wrote 3 of 4 bytes".into()));
}
