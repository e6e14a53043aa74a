use ak1::abi::{AsioBufferInfo, ASE_INVALID_MODE, ASE_NOT_PRESENT, K_ASIO_ENGINE_VERSION, K_ASIO_RESET_REQUEST, K_ASIO_SUPPORTS_TIME_INFO};
use ak1::host::{
    all_channels, buffer_frames, listed_channels, mode, next_call, panel_opened, parse_channel, Call, Mode, SwitchCount, USAGE,
};

fn list(texts: &[&str]) -> Vec<String> {
    texts.iter().map(|text| text.to_string()).collect()
}

fn channels(text: &str) -> Result<Vec<(i32, i32)>, String> {
    listed_channels(text).map(|infos| infos.iter().map(|info| (info.is_input, info.channel_num)).collect())
}

#[test]
fn host_arguments_choose_what_it_does() {
    assert_eq!(mode(&list(&["panel"])), Ok(Mode::Panel));
    assert_eq!(mode(&list(&["48000", "pref", "10"])), Ok(Mode::Stream));
    assert_eq!(mode(&list(&["48000", "pref", "10", "out1,out2"])), Ok(Mode::StreamChannels));
    assert_eq!(mode(&list(&["48000"])), Err(USAGE));
    assert_eq!(mode(&[]), Err(USAGE));
}

#[test]
fn buffer_sizes_are_numbers_or_preferred() {
    assert_eq!(buffer_frames("pref", 512), Some(512));
    assert_eq!(buffer_frames("1024", 512), Some(1024));
    assert_eq!(buffer_frames("-1", 512), Some(-1));
    assert_eq!(buffer_frames("-2147483648", 512), Some(i32::MIN));
    for text in ["", "-", "+", "--1", "-+1", "2147483648", "-2147483649", "12a", "Pref"] {
        assert_eq!(buffer_frames(text, 512), None, "{text}");
        assert!(text.parse::<i32>().is_err());
    }
}

#[test]
fn channels_are_listed_by_name() {
    assert_eq!(channels("in1,out3,out4"), Ok(vec![(1, 0), (0, 2), (0, 3)]));
    assert_eq!(channels("in+2"), Err("unknown channel in+2".into()));
    assert_eq!(channels("in3"), Err("unknown channel in3".into()));
    assert_eq!(channels("in1,,out9"), Err("unknown channel ".into()));
    assert_eq!(channels("in1,\u{e9}1,in2"), Err("unknown channel \u{e9}1".into()));
    assert_eq!(channels("out0"), Err("unknown channel out0".into()));
    assert_eq!(channels("mid1"), Err("unknown channel mid1".into()));
}

#[test]
fn six_names_are_channels() {
    let names = ["in1", "in2", "out1", "out2", "out3", "out4"];
    for (name, info) in names.iter().zip(all_channels()) {
        assert_eq!(parse_channel(name), Ok(info));
    }
    for name in ["", "in", "in0", "in3", "in+1", "in01", "in11", "In1", "out", "out0", "out5", "out01", "out+1", "out1 "] {
        assert_eq!(parse_channel(name), Err(format!("unknown channel {name}")));
    }
}

#[test]
fn all_channels_put_inputs_first() {
    let all: Vec<AsioBufferInfo> = all_channels();
    assert_eq!(all.len(), 6);
    assert_eq!(all[1], AsioBufferInfo { is_input: 1, channel_num: 1 });
    assert_eq!(all[5], AsioBufferInfo { is_input: 0, channel_num: 3 });
}

#[test]
fn runs_call_the_driver_in_order() {
    let mut calls = vec![Call::Init];
    let mut next = next_call(Call::Init, 1, "").unwrap();
    while let Some(call) = next {
        calls.push(call);
        next = next_call(call, 0, "").unwrap();
    }
    assert_eq!(calls.len(), 11);
    assert_eq!((calls[5], calls[10]), (Call::CreateBuffers, Call::DisposeBuffers));
}

#[test]
fn failed_calls_end_the_run() {
    assert_eq!(next_call(Call::Init, 0, "no card"), Err("init failed: no card".into()));
    assert_eq!(next_call(Call::Start, ASE_INVALID_MODE, "early"), Err("start returned -997: early".into()));
}

#[test]
fn panels_that_do_not_open_are_reported() {
    assert_eq!(panel_opened(0, "old"), Ok(()));
    assert_eq!(panel_opened(ASE_NOT_PRESENT, "no file"), Err("controlPanel returned -1000: no file".into()));
}

#[test]
fn positions_are_held_against_the_count() {
    let mut count = SwitchCount::new(256);
    count.process(Some(0));
    count.process(None);
    count.process(Some(512));
    assert_eq!((count.switches, count.position_errors, count.last_position), (3, 0, 512));
    count.process(Some(512));
    assert_eq!(count.position_errors, 1);
}

#[test]
fn driver_messages_are_answered() {
    let mut count = SwitchCount::new(256);
    assert_eq!(count.asio_message(1, K_ASIO_RESET_REQUEST), 1);
    assert_eq!(count.asio_message(1, 99), 0);
    assert_eq!(count.asio_message(K_ASIO_ENGINE_VERSION, 0), 2);
    assert_eq!(count.asio_message(K_ASIO_SUPPORTS_TIME_INFO, 0), 1);
    assert_eq!(count.asio_message(K_ASIO_RESET_REQUEST, 0), 1);
    assert_eq!(count.asio_message(100, 0), 0);
    assert_eq!(count.reset_requests, 1);
}
