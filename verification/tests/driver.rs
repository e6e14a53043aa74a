use ak1::abi::{
    c_str, AsioBufferInfo, AsioChannelInfo, AsioU64, ASE_HW_MALFUNCTION, ASE_INVALID_MODE, ASE_INVALID_PARAMETER,
    ASE_NOT_PRESENT, ASE_NO_CLOCK, ASE_OK, ASE_SUCCESS, ASIO_ST_INT32_LSB, K_ASIO_CAN_TIME_INFO,
};
use ak1::com::{E_NOINTERFACE, E_POINTER, IID_IUNKNOWN, S_OK};
use ak1::driver::{query_interface, Driver, OpenFailure, References, Step, CLSID};
use ak1::duplex::{Clock, Host, AUDCLNT_E_UNSUPPORTED_FORMAT};
use ak1::settings::Settings;

fn ready() -> Driver {
    let mut driver = Driver::new(Settings::default());
    assert_eq!(driver.init(Ok(true)), 1);
    driver
}

fn message(driver: &Driver) -> String {
    let mut text = [0xee; 124];
    driver.get_error_message(&mut text);
    String::from_utf8(c_str(&text)).unwrap()
}

fn input(channel_num: i32) -> AsioBufferInfo {
    AsioBufferInfo { is_input: 1, channel_num }
}

fn output(channel_num: i32) -> AsioBufferInfo {
    AsioBufferInfo { is_input: 0, channel_num }
}

fn open(driver: &mut Driver, infos: &[AsioBufferInfo], size: i32) -> Host {
    let host = driver.create_buffers(Some(infos), true, infos.len() as i32, size).unwrap();
    assert_eq!(driver.session_opened(&host, Ok(())), ASE_OK);
    host
}

#[test]
fn initializing_needs_com_and_the_endpoints() {
    let mut driver = Driver::new(Settings::default());
    assert!(driver.needs_com());
    assert!(!driver.com_started(Err("no")));
    assert_eq!(message(&driver), "starting COM failed: no");
    assert!(driver.com_started(Ok(())));
    assert!(!driver.needs_com());
    assert_eq!(driver.init(Ok(false)), 0);
    assert_eq!(message(&driver), "Audio Kontrol 1 endpoints not found; is the device connected?");
    assert_eq!(driver.init(Err("gone")), 0);
    assert_eq!(message(&driver), "enumerating audio endpoints failed: gone");
    assert_eq!(driver.init(Ok(true)), 1);
}

#[test]
fn driver_says_what_it_is() {
    let driver = ready();
    let mut name = [0xee; 32];
    driver.get_driver_name(&mut name);
    assert_eq!(c_str(&name), b"Audio Kontrol 1");
    assert_eq!(driver.get_driver_version(), 1);
    assert_eq!(driver.get_channels(), (2, 4));
    assert_eq!(driver.output_ready(), ASE_NOT_PRESENT);
    assert_eq!(driver.future(K_ASIO_CAN_TIME_INFO), ASE_SUCCESS);
    assert_eq!(driver.future(0), ASE_INVALID_PARAMETER);
}

#[test]
fn settings_choose_the_rate_and_the_preferred_size() {
    let driver = Driver::new(Settings { sample_rate: 96_000, buffer_multiple: 4 });
    assert_eq!(driver.get_sample_rate(), 96_000);
    assert_eq!(driver.get_buffer_size(), (512, 4096, 2048, -1));
    assert_eq!(ready().get_buffer_size(), (256, 2048, 512, -1));
}

#[test]
fn latencies_count_buffers_and_the_transfer() {
    let mut driver = ready();
    assert_eq!(driver.get_latencies(), (256 + 192, 2 * 256 + 192));
    open(&mut driver, &[input(0)], 1024);
    assert_eq!(driver.get_latencies(), (1024 + 192, 2 * 1024 + 192));
}

#[test]
fn rates_of_the_device_can_be_had_and_no_others() {
    let mut driver = ready();
    assert_eq!(driver.can_sample_rate(Some(192_000)), ASE_OK);
    assert_eq!(driver.can_sample_rate(Some(32_000)), ASE_NO_CLOCK);
    assert_eq!(driver.can_sample_rate(None), ASE_NO_CLOCK);
    assert_eq!(driver.set_sample_rate(Some(44_100), "44100"), (ASE_OK, false));
    assert_eq!(driver.get_sample_rate(), 44_100);
    assert_eq!(driver.set_sample_rate(None, "44100.5"), (ASE_NO_CLOCK, false));
    assert_eq!(message(&driver), "unsupported sample rate 44100.5");
    assert_eq!(driver.get_sample_rate(), 44_100);
}

#[test]
fn hosts_with_buffers_are_asked_to_make_them_anew() {
    let mut driver = ready();
    open(&mut driver, &[output(0)], 256);
    assert_eq!(driver.set_sample_rate(Some(48_000), "48000"), (ASE_OK, false));
    assert_eq!(driver.set_sample_rate(Some(96_000), "96000"), (ASE_OK, true));
    assert!(!driver.settings_changed(Settings { sample_rate: 44_100, buffer_multiple: 2 }));
    assert!(driver.settings_changed(Settings { sample_rate: 44_100, buffer_multiple: 1 }));
    assert_eq!(driver.dispose_buffers(), ASE_OK);
    assert!(!driver.settings_changed(Settings { sample_rate: 44_100, buffer_multiple: 8 }));
    assert_eq!(driver.get_buffer_size().2, 8 * 512);
}

#[test]
fn only_the_internal_clock_is_there() {
    let driver = ready();
    let clock = driver.get_clock_sources(Some(1)).unwrap();
    assert_eq!((clock.index, clock.associated_channel, clock.associated_group), (0, -1, -1));
    assert_eq!(clock.is_current_source, 1);
    assert_eq!(c_str(&clock.name), b"Internal");
    assert_eq!(driver.get_clock_sources(Some(0)).err(), Some(ASE_INVALID_PARAMETER));
    assert_eq!(driver.get_clock_sources(None).err(), Some(ASE_INVALID_PARAMETER));
    assert_eq!(driver.set_clock_source(0), ASE_OK);
    assert_eq!(driver.set_clock_source(1), ASE_INVALID_PARAMETER);
}

#[test]
fn positions_are_split_into_words() {
    let clock = Clock { sample_position: 0x1_0000_0002, system_time_ns: 3 };
    assert_eq!(ready().get_sample_position(&clock), (AsioU64 { hi: 1, lo: 2 }, AsioU64 { hi: 0, lo: 3 }));
}

#[test]
fn channels_are_described() {
    let mut driver = ready();
    open(&mut driver, &[output(3)], 256);
    let mut info =
        AsioChannelInfo { channel: 3, is_input: 0, is_active: 7, channel_group: 7, sample_type: 7, name: [0xee; 32] };
    assert_eq!(driver.get_channel_info(&mut info), ASE_OK);
    assert_eq!((info.is_active, info.channel_group, info.sample_type), (1, 0, ASIO_ST_INT32_LSB));
    assert_eq!(c_str(&info.name), b"Out 4");
    (info.channel, info.is_input) = (1, 1);
    assert_eq!(driver.get_channel_info(&mut info), ASE_OK);
    assert_eq!(info.is_active, 0);
    assert_eq!(c_str(&info.name), b"In 2");
    info.channel = 2;
    assert_eq!(driver.get_channel_info(&mut info), ASE_INVALID_PARAMETER);
    info.channel = -1;
    assert_eq!(driver.get_channel_info(&mut info), ASE_INVALID_PARAMETER);
}

#[test]
fn buffers_are_made_for_listed_channels() {
    let mut driver = ready();
    let infos = [output(2), input(1), output(2)];
    let mut host = driver.create_buffers(Some(&infos), true, 3, 256).unwrap();
    assert_eq!((host.buffer_frames, host.rate, host.time_info), (256, 48_000, false));
    // A channel that is listed twice has the later buffer.
    assert_eq!(host.inputs, [None, Some(1)]);
    assert_eq!(host.outputs, [None, None, Some(2), None]);
    assert_eq!(host.buffers, vec![vec![0; 512]; 3]);
    host.set_time_info(1);
    assert!(host.time_info);
    host.set_time_info(2);
    assert!(!host.time_info);
}

#[test]
fn requests_for_buffers_are_checked() {
    let mut driver = Driver::new(Settings::default());
    let one = [input(0)];
    assert_eq!(driver.create_buffers(Some(&one), true, 1, 256).err(), Some(ASE_NOT_PRESENT));
    assert_eq!(message(&driver), "driver not initialized");
    driver.init(Ok(true));
    for size in [255, 2049] {
        assert_eq!(driver.create_buffers(Some(&one), true, 1, size).err(), Some(ASE_INVALID_PARAMETER));
        assert_eq!(message(&driver), format!("buffer size {size} outside 256..=2048"));
    }
    assert_eq!(driver.create_buffers(None, true, 1, 256).err(), Some(ASE_INVALID_PARAMETER));
    assert_eq!(driver.create_buffers(Some(&one), false, 1, 256).err(), Some(ASE_INVALID_PARAMETER));
    assert_eq!(driver.create_buffers(Some(&[]), true, 0, 256).err(), Some(ASE_INVALID_PARAMETER));
    let unknown = [input(0), input(2), output(-1)];
    assert_eq!(driver.create_buffers(Some(&unknown), true, 3, 256).err(), Some(ASE_INVALID_PARAMETER));
    assert_eq!(message(&driver), "no channel 2");
    open(&mut driver, &one, 256);
    assert_eq!(driver.create_buffers(Some(&one), true, 1, 256).err(), Some(ASE_INVALID_MODE));
    assert_eq!(message(&driver), "buffers already exist");
}

#[test]
fn devices_that_do_not_open_are_explained() {
    let mut driver = ready();
    let host = driver.create_buffers(Some(&[input(0)]), true, 1, 256).unwrap();
    let busy = OpenFailure { code: AUDCLNT_E_UNSUPPORTED_FORMAT, text: "unsupported" };
    assert_eq!(driver.session_opened(&host, Err(busy)), ASE_NO_CLOCK);
    assert_eq!(message(&driver), "another application is using the device at a rate other than 48000 Hz");
    let broken = OpenFailure { code: -1, text: "broken" };
    assert_eq!(driver.session_opened(&host, Err(broken)), ASE_HW_MALFUNCTION);
    assert_eq!(message(&driver), "opening the device at 48000 Hz failed: broken");
}

#[test]
fn streams_start_and_stop_once() {
    let mut driver = ready();
    assert_eq!(driver.start(), Step::Done(ASE_INVALID_MODE));
    assert_eq!(message(&driver), "start called before createBuffers");
    assert_eq!(driver.stop(), Step::Done(ASE_OK));
    open(&mut driver, &[input(0)], 256);
    assert_eq!(driver.start(), Step::Streams);
    assert_eq!(driver.started(Err("no")), ASE_HW_MALFUNCTION);
    assert_eq!(message(&driver), "starting streams failed: no");
    assert_eq!(driver.started(Ok(())), ASE_OK);
    assert_eq!(driver.start(), Step::Done(ASE_OK));
    assert_eq!(driver.stop(), Step::Streams);
    assert_eq!(driver.stop(), Step::Done(ASE_OK));
}

#[test]
fn control_panel_is_opened_or_explained() {
    let mut driver = ready();
    assert_eq!(driver.control_panel(Ok(())), ASE_OK);
    assert_eq!(driver.control_panel(Err("not installed")), ASE_NOT_PRESENT);
    assert_eq!(message(&driver), "opening the control panel failed: not installed");
}

#[test]
fn objects_are_asked_for_by_their_class() {
    assert_eq!(query_interface(Some(CLSID)), S_OK);
    assert_eq!(query_interface(Some(IID_IUNKNOWN)), S_OK);
    assert_eq!(query_interface(Some(1)), E_NOINTERFACE);
    assert_eq!(query_interface(None), E_POINTER);
    let mut references = References::new();
    assert_eq!((references.add_ref(), references.release(), references.release()), (2, 1, 0));
}
