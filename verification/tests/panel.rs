use ak1::duplex::Endpoints;
use ak1::panel::{
    buffer_labels, change_settings, command, connection, dialog, find_card, layout, property_text, rate_label,
    selected, selection, Action, Connection, Message, Pair, Status, Tests, IDC_BUFFER, IDC_METER, IDC_RATE,
    IDC_TEST12, IDC_TEST34,
};
use ak1::settings::Settings;
use ak1::template::{Class, Template};

fn wide(text: &str) -> Vec<u16> {
    text.encode_utf16().collect()
}

#[test]
fn templates_are_laid_out_in_words() {
    let mut template = Template::new("T", 0x8000_0001, "F", 9, [-1, 2]);
    assert_eq!(template.build(), [0x8000_0001, 0, 0, 0xffff_0000, 2, 0x0054_0000, 0x0009_0000, 0x0046, ][..]);
    template.item(Class::Static, "x", 100, 7, [1, 2, 3, 4]);
    let words = template.build();
    assert_eq!(words[2] & 0xffff, 1);
    assert_eq!(words[8..], [0x5000_0007, 0, 0x0002_0001, 0x0004_0003, 0xffff_0064, 0x0078_0082, 0]);
}

#[test]
fn named_classes_and_odd_lengths_are_padded() {
    let mut template = Template::new("", 0, "", 0, [0, 0]);
    template.item(Class::Named("ab"), "", 1, 0, [0; 4]);
    template.item(Class::Button, "", 2, 0, [0; 4]);
    let words = template.build();
    assert_eq!(words[2] & 0xffff, 2);
    assert_eq!(words.len() * 4 % 4, 0);
    assert!(words.contains(&0x5000_0000));
}

#[test]
fn panel_has_all_its_controls() {
    let words = layout().build();
    assert_eq!(words[0], 0x80ca_08c0);
    assert_eq!(words[2] & 0xffff, 23);
    assert_eq!((words[3] >> 16, words[4] & 0xffff), (260, 262));
}

#[test]
fn messages_are_told_apart() {
    assert_eq!(dialog(0x110, 0), Message::Init);
    assert_eq!(dialog(0x111, 0x0001_006e), Message::Command { id: 110, code: 1 });
    assert_eq!(dialog(0x113, 1), Message::ShowStatus);
    assert_eq!(dialog(0x113, 2), Message::UpdateMeter);
    assert_eq!(dialog(0x113, 3), Message::OtherTimer);
    assert_eq!(dialog(0x10, 0), Message::Close);
    assert_eq!(dialog(0x11, 0), Message::Ignored);
}

#[test]
fn controls_ask_for_actions() {
    assert_eq!(command(IDC_RATE, 1), Action::ChangeSettings);
    assert_eq!(command(IDC_BUFFER, 1), Action::ChangeSettings);
    assert_eq!(command(IDC_TEST12, 0), Action::Test(Pair::Outputs12));
    assert_eq!(command(IDC_TEST34, 0), Action::Test(Pair::Outputs34));
    assert_eq!(command(IDC_METER, 0), Action::SwitchMeter);
    assert_eq!(command(2, 0), Action::Close);
    assert_eq!(command(IDC_RATE, 0), Action::Nothing);
    assert_eq!(command(IDC_TEST12, 1), Action::Nothing);
}

#[test]
fn selections_become_settings_and_back() {
    assert_eq!(selection(-1), None);
    assert_eq!(selection(3), Some(3));
    for rate in 0..5 {
        for buffer in 0..4 {
            assert_eq!(selected(&change_settings(Some(rate), Some(buffer))), (rate, buffer));
        }
    }
    assert_eq!(change_settings(None, None), Settings { sample_rate: 44_100, buffer_multiple: 1 });
    assert_eq!(selected(&Settings { sample_rate: 8_000, buffer_multiple: 8 }), (0, 3));
    assert_eq!(selected(&Settings { sample_rate: 192_000, buffer_multiple: 3 }), (4, 0));
}

#[test]
fn buffer_sizes_are_shown_at_the_selected_rate() {
    assert_eq!(rate_label(88_200), "88200 Hz");
    assert_eq!(
        buffer_labels(48_000),
        ["256 samples (5.3 ms)", "512 samples (10.7 ms)", "1024 samples (21.3 ms)", "2048 samples (42.7 ms)"]
    );
    for rate in ak1::settings::RATES {
        let expected = ak1::settings::BUFFER_MULTIPLES.map(|multiple| {
            let frames = ak1::settings::min_buffer_frames(rate) * multiple;
            format!("{frames} samples ({:.1} ms)", f64::from(frames) * 1000.0 / f64::from(rate))
        });
        assert_eq!(buffer_labels(rate), expected);
    }
}

#[test]
fn pairs_have_names_and_endpoints() {
    let endpoints = Endpoints { output12: 5, output34: 6, input12: 7 };
    assert_eq!((Pair::Outputs12.device(&endpoints), Pair::Outputs34.device(&endpoints)), (5, 6));
    assert_eq!((Pair::Outputs12.name(), Pair::Outputs34.name()), ("outputs 1/2", "outputs 3/4"));
}

#[test]
fn one_test_runs_at_a_time() {
    let mut tests = Tests::new();
    assert!(tests.start());
    assert!(!tests.start());
    tests.finished();
    assert!(tests.start());
}

#[test]
fn status_is_summed_up() {
    let mut status = Status::missing();
    assert_eq!(status.summary(), "Not connected.");
    assert_eq!(status.versions(), "Driver unknown");
    assert_eq!(status.last_stream(), "No stream since the driver started.");
    status.connection = connection(0, 0x400, 31, None);
    assert_eq!(
        status.summary(),
        "Connected, but stopped with problem code 31. Unplug the card and plug it back in."
    );
    status.connection = connection(1, 0x400, 31, Some("AK1ACX".into()));
    assert_eq!(status.summary(), "Connected and working.");
    status.connection = Connection::Working { service: "WINUSB".into() };
    assert_eq!(status.summary(), "Connected, but using the WINUSB driver instead of this one.");
    status.driver_version = Some("1.2".into());
    status.firmware = Some(22);
    assert_eq!(status.versions(), "Driver 1.2, firmware 22");
    status.last_stream = Some([262, 0, 0, 2, 0, 0, 0, 3, 1]);
    assert_eq!(
        status.last_stream(),
        "Last stream: 1.0 s, 1 lost packets, 2 check errors, 3 output overruns"
    );
    for transfers in [0, 12, 13, 37, 38, 250, 4_294_967_295] {
        status.last_stream = Some([transfers, 0, 0, 0, 0, 0, 0, 0, 0]);
        assert!(status.last_stream().contains(&format!(" {:.1} s,", f64::from(transfers) * 0.004)));
    }
}

#[test]
fn card_is_found_among_devices() {
    let list = wide("USB\\VID_1234&PID_0815\\1\0Usb\\Vid_17cc&pid_0815\\SN-1\0USB\\VID_17CC&PID_0815\\2\0\0");
    assert_eq!(find_card(&list), Some(wide("Usb\\Vid_17cc&pid_0815\\SN-1")));
    assert_eq!(find_card(&wide("USB\\ROOT_HUB30\\4\0\0")), None);
    assert_eq!(find_card(&[]), None);
    assert_eq!(find_card(&wide("USB\\VID_17CC&PID_0815\\")), Some(wide("USB\\VID_17CC&PID_0815\\")));
}

#[test]
fn text_properties_end_at_a_nul() {
    assert_eq!(property_text(&wide("ab\0cd"), 10), wide("ab"));
    assert_eq!(property_text(&wide("abcd"), 6), wide("abc"));
    assert_eq!(property_text(&[], 0), []);
}
