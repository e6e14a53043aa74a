//! The control panel: its layout, what its controls do and what it says of
//! the card.

use vstd::prelude::*;

use crate::bytes::{le32_value, u32_from_le};
use crate::circuit::counter_bytes;
use crate::duplex::Endpoints;
use crate::settings::{
    is_offered_multiple, is_offered_rate, min_buffer_frames, min_buffer_frames_spec, Settings,
    BUFFER_MULTIPLES, RATES,
};
use crate::template::{empty_template, Class, Template, TemplateView};
use crate::text::{
    chars_of, decimal_nat, decimal_tenths, lower, push_number, push_tenths, same_but_for_case, string_of,
};

verus! {

pub const TITLE: &'static str = "Audio Kontrol 1 Control Panel";

pub const IDC_STATUS: u16 = 100;

pub const IDC_VERSIONS: u16 = 101;

pub const IDC_LAST_STREAM: u16 = 102;

pub const IDC_RATE: u16 = 110;

pub const IDC_BUFFER: u16 = 111;

pub const IDC_TEST12: u16 = 120;

pub const IDC_TEST34: u16 = 121;

pub const IDC_METER: u16 = 122;

pub const IDC_METER1: u16 = 123;

pub const IDC_METER2: u16 = 124;

pub const IDC_LEVEL1: u16 = 125;

pub const IDC_LEVEL2: u16 = 126;

pub const IDC_MESSAGE: u16 = 130;

pub const IDC_NONE: u16 = 0xffff;

pub const IDCANCEL: u16 = 2;

pub const STATUS_TIMER: u64 = 1;

pub const METER_TIMER: u64 = 2;

pub const STATUS_MS: u32 = 1000;

pub const METER_MS: u32 = 50;

pub const WM_CLOSE: u32 = 0x10;

pub const WM_INITDIALOG: u32 = 0x110;

pub const WM_COMMAND: u32 = 0x111;

pub const WM_TIMER: u32 = 0x113;

pub const BN_CLICKED: u32 = 0;

pub const CBN_SELCHANGE: u32 = 1;

/// DS_SETFONT, DS_MODALFRAME, DS_CENTER, WS_POPUP, WS_CAPTION, WS_SYSMENU and
/// WS_MINIMIZEBOX.
pub const DIALOG_STYLE: u32 = 0x80ca_08c0;

/// BS_GROUPBOX
pub const GROUP: u32 = 7;

pub const LABEL: u32 = 0;

/// CBS_DROPDOWNLIST, WS_VSCROLL and WS_TABSTOP
pub const COMBO: u32 = 0x0021_0003;

/// BS_PUSHBUTTON and WS_TABSTOP
pub const BUTTON: u32 = 0x0001_0000;

/// BS_AUTOCHECKBOX and WS_TABSTOP
pub const CHECK_BOX: u32 = 0x0001_0003;

pub const SETTINGS_NOTE: &'static str =
    "For DAWs that do not set these themselves. A DAW that has the driver open reloads it when the buffer size changes.";

pub const TEST_NOTE: &'static str = "Plays a low tone on the left output, then a high tone on the right.";

pub const METER_NOTE: &'static str = "Input meter (keeps the card at the Windows sample rate while on)";

pub const BAR: &'static str = "msctls_progress32";

/// The part of the panel that shows the device.
#[verifier::opaque]
pub open spec fn device_group(t: TemplateView) -> TemplateView {
    t.with_item(Class::Button, "Device"@, IDC_NONE, GROUP, seq![7i16, 5, 246, 54]).with_item(
        Class::Static,
        ""@,
        IDC_STATUS,
        LABEL,
        seq![15i16, 18, 230, 10],
    ).with_item(Class::Static, ""@, IDC_VERSIONS, LABEL, seq![15i16, 30, 230, 10]).with_item(
        Class::Static,
        ""@,
        IDC_LAST_STREAM,
        LABEL,
        seq![15i16, 42, 230, 10],
    )
}

/// The part of the panel that sets the ASIO rate and buffer size.
#[verifier::opaque]
pub open spec fn asio_group(t: TemplateView) -> TemplateView {
    t.with_item(Class::Button, "ASIO"@, IDC_NONE, GROUP, seq![7i16, 63, 246, 76]).with_item(
        Class::Static,
        "Sample rate:"@,
        IDC_NONE,
        LABEL,
        seq![15i16, 78, 55, 10],
    ).with_item(Class::ComboBox, ""@, IDC_RATE, COMBO, seq![75i16, 76, 110, 120]).with_item(
        Class::Static,
        "Buffer size:"@,
        IDC_NONE,
        LABEL,
        seq![15i16, 96, 55, 10],
    ).with_item(Class::ComboBox, ""@, IDC_BUFFER, COMBO, seq![75i16, 94, 110, 120]).with_item(
        Class::Static,
        SETTINGS_NOTE@,
        IDC_NONE,
        LABEL,
        seq![15i16, 113, 230, 20],
    )
}

/// The part of the panel with the tests.
#[verifier::opaque]
pub open spec fn test_group(t: TemplateView) -> TemplateView {
    t.with_item(Class::Button, "Test"@, IDC_NONE, GROUP, seq![7i16, 143, 246, 90]).with_item(
        Class::Button,
        "Test outputs 1/2"@,
        IDC_TEST12,
        BUTTON,
        seq![15i16, 156, 90, 14],
    ).with_item(
        Class::Button,
        "Test outputs 3/4"@,
        IDC_TEST34,
        BUTTON,
        seq![111i16, 156, 90, 14],
    ).with_item(Class::Static, TEST_NOTE@, IDC_NONE, LABEL, seq![15i16, 174, 230, 10]).with_item(
        Class::Button,
        METER_NOTE@,
        IDC_METER,
        CHECK_BOX,
        seq![15i16, 187, 230, 10],
    )
}

/// The input meters.
#[verifier::opaque]
pub open spec fn meter_group(t: TemplateView) -> TemplateView {
    t.with_item(Class::Static, "In 1"@, IDC_NONE, LABEL, seq![15i16, 203, 20, 10]).with_item(
        Class::Named(BAR),
        ""@,
        IDC_METER1,
        0,
        seq![38i16, 203, 160, 9],
    ).with_item(Class::Static, ""@, IDC_LEVEL1, LABEL, seq![204i16, 203, 42, 10]).with_item(
        Class::Static,
        "In 2"@,
        IDC_NONE,
        LABEL,
        seq![15i16, 216, 20, 10],
    ).with_item(Class::Named(BAR), ""@, IDC_METER2, 0, seq![38i16, 216, 160, 9]).with_item(
        Class::Static,
        ""@,
        IDC_LEVEL2,
        LABEL,
        seq![204i16, 216, 42, 10],
    )
}

/// The control panel's dialog.
pub open spec fn layout_spec() -> TemplateView {
    let empty = empty_template(TITLE@, DIALOG_STYLE, "Segoe UI"@, 9, seq![260i16, 262]);
    meter_group(test_group(asio_group(device_group(empty)))).with_item(
        Class::Static,
        ""@,
        IDC_MESSAGE,
        LABEL,
        seq![7i16, 238, 180, 20],
    ).with_item(Class::Button, "Close"@, IDCANCEL, BUTTON, seq![203i16, 241, 50, 14])
}

/// Adds an item at the place given by its left, top, width and height.
fn place(t: &mut Template, class: Class, text: &str, id: u16, style: u32, rect: [i16; 4])
    requires
        old(t)@.wf(),
        old(t)@.items < 100,
    ensures
        final(t)@ == old(t)@.with_item(
            class,
            text@,
            id,
            style,
            seq![rect[0], rect[1], rect[2], rect[3]],
        ),
        final(t)@.wf(),
{
    assert(rect@ =~= seq![rect[0], rect[1], rect[2], rect[3]]);
    t.item(class, text, id, style, rect);
}

fn place_device_group(t: &mut Template)
    requires
        old(t)@.wf(),
        old(t)@.items < 50,
    ensures
        final(t)@ == device_group(old(t)@),
        final(t)@.wf(),
        final(t)@.items == old(t)@.items + 4,
{
    reveal(device_group);
    place(t, Class::Button, "Device", IDC_NONE, GROUP, [7, 5, 246, 54]);
    place(t, Class::Static, "", IDC_STATUS, LABEL, [15, 18, 230, 10]);
    place(t, Class::Static, "", IDC_VERSIONS, LABEL, [15, 30, 230, 10]);
    place(t, Class::Static, "", IDC_LAST_STREAM, LABEL, [15, 42, 230, 10]);
}

fn place_asio_group(t: &mut Template)
    requires
        old(t)@.wf(),
        old(t)@.items < 50,
    ensures
        final(t)@ == asio_group(old(t)@),
        final(t)@.wf(),
        final(t)@.items == old(t)@.items + 6,
{
    reveal(asio_group);
    place(t, Class::Button, "ASIO", IDC_NONE, GROUP, [7, 63, 246, 76]);
    place(t, Class::Static, "Sample rate:", IDC_NONE, LABEL, [15, 78, 55, 10]);
    place(t, Class::ComboBox, "", IDC_RATE, COMBO, [75, 76, 110, 120]);
    place(t, Class::Static, "Buffer size:", IDC_NONE, LABEL, [15, 96, 55, 10]);
    place(t, Class::ComboBox, "", IDC_BUFFER, COMBO, [75, 94, 110, 120]);
    place(t, Class::Static, SETTINGS_NOTE, IDC_NONE, LABEL, [15, 113, 230, 20]);
}

fn place_test_group(t: &mut Template)
    requires
        old(t)@.wf(),
        old(t)@.items < 50,
    ensures
        final(t)@ == test_group(old(t)@),
        final(t)@.wf(),
        final(t)@.items == old(t)@.items + 5,
{
    reveal(test_group);
    place(t, Class::Button, "Test", IDC_NONE, GROUP, [7, 143, 246, 90]);
    place(t, Class::Button, "Test outputs 1/2", IDC_TEST12, BUTTON, [15, 156, 90, 14]);
    place(t, Class::Button, "Test outputs 3/4", IDC_TEST34, BUTTON, [111, 156, 90, 14]);
    place(t, Class::Static, TEST_NOTE, IDC_NONE, LABEL, [15, 174, 230, 10]);
    place(t, Class::Button, METER_NOTE, IDC_METER, CHECK_BOX, [15, 187, 230, 10]);
}

fn place_meter_group(t: &mut Template)
    requires
        old(t)@.wf(),
        old(t)@.items < 50,
    ensures
        final(t)@ == meter_group(old(t)@),
        final(t)@.wf(),
        final(t)@.items == old(t)@.items + 6,
{
    reveal(meter_group);
    place(t, Class::Static, "In 1", IDC_NONE, LABEL, [15, 203, 20, 10]);
    place(t, Class::Named(BAR), "", IDC_METER1, 0, [38, 203, 160, 9]);
    place(t, Class::Static, "", IDC_LEVEL1, LABEL, [204, 203, 42, 10]);
    place(t, Class::Static, "In 2", IDC_NONE, LABEL, [15, 216, 20, 10]);
    place(t, Class::Named(BAR), "", IDC_METER2, 0, [38, 216, 160, 9]);
    place(t, Class::Static, "", IDC_LEVEL2, LABEL, [204, 216, 42, 10]);
}

/// The control panel's dialog.
pub fn layout() -> (template: Template)
    ensures
        template@ == layout_spec(),
        template@.wf(),
        template@.items == 23,
{
    let size: [i16; 2] = [260, 262];
    assert(size@ =~= seq![260i16, 262]);
    let mut t: Template = Template::new(TITLE, DIALOG_STYLE, "Segoe UI", 9, size);
    place_device_group(&mut t);
    place_asio_group(&mut t);
    place_test_group(&mut t);
    place_meter_group(&mut t);
    place(&mut t, Class::Static, "", IDC_MESSAGE, LABEL, [7, 238, 180, 20]);
    place(&mut t, Class::Button, "Close", IDCANCEL, BUTTON, [203, 241, 50, 14]);
    t
}

/// What a message to the dialog asks for.
#[derive(Clone, Copy, Debug, PartialEq, Eq, Structural)]
pub enum Message {
    Init,
    Command { id: u16, code: u32 },
    ShowStatus,
    UpdateMeter,
    /// A timer that is not the panel's.
    OtherTimer,
    Close,
    /// Left to the system.
    Ignored,
}

pub open spec fn dialog_spec(message: u32, wparam: u64) -> Message {
    if message == WM_INITDIALOG {
        Message::Init
    } else if message == WM_COMMAND {
        Message::Command {
            id: (wparam % 65536) as u16,
            code: ((wparam / 65536) % 4294967296) as u32,
        }
    } else if message == WM_TIMER {
        if wparam == STATUS_TIMER {
            Message::ShowStatus
        } else if wparam == METER_TIMER {
            Message::UpdateMeter
        } else {
            Message::OtherTimer
        }
    } else if message == WM_CLOSE {
        Message::Close
    } else {
        Message::Ignored
    }
}

/// What a message to the dialog asks for.
pub fn dialog(message: u32, wparam: u64) -> (asked: Message)
    ensures
        asked == dialog_spec(message, wparam),
{
    if message == WM_INITDIALOG {
        Message::Init
    } else if message == WM_COMMAND {
        Message::Command {
            id: (wparam % 65536) as u16,
            code: ((wparam / 65536) % 4294967296) as u32,
        }
    } else if message == WM_TIMER {
        if wparam == STATUS_TIMER {
            Message::ShowStatus
        } else if wparam == METER_TIMER {
            Message::UpdateMeter
        } else {
            Message::OtherTimer
        }
    } else if message == WM_CLOSE {
        Message::Close
    } else {
        Message::Ignored
    }
}

/// A pair of outputs.
#[derive(Clone, Copy, Debug, PartialEq, Eq, Structural)]
pub enum Pair {
    Outputs12,
    Outputs34,
}

impl Pair {
    /// The endpoint that plays on the pair.
    pub fn device(self, endpoints: &Endpoints) -> (device: usize)
        ensures
            device == match self {
                Pair::Outputs12 => endpoints.output12,
                Pair::Outputs34 => endpoints.output34,
            },
    {
        match self {
            Pair::Outputs12 => endpoints.output12,
            Pair::Outputs34 => endpoints.output34,
        }
    }

    pub fn name(self) -> (name: &'static str)
        ensures
            name@ == match self {
                Pair::Outputs12 => "outputs 1/2"@,
                Pair::Outputs34 => "outputs 3/4"@,
            },
    {
        match self {
            Pair::Outputs12 => "outputs 1/2",
            Pair::Outputs34 => "outputs 3/4",
        }
    }
}

/// What a control asks for.
#[derive(Clone, Copy, Debug, PartialEq, Eq, Structural)]
pub enum Action {
    ChangeSettings,
    Test(Pair),
    SwitchMeter,
    Close,
    Nothing,
}

/// What the notification `code` of control `id` asks for.
pub fn command(id: u16, code: u32) -> (action: Action)
    ensures
        action == (if code == CBN_SELCHANGE {
            if id == IDC_RATE || id == IDC_BUFFER {
                Action::ChangeSettings
            } else {
                Action::Nothing
            }
        } else if code == BN_CLICKED {
            if id == IDC_TEST12 {
                Action::Test(Pair::Outputs12)
            } else if id == IDC_TEST34 {
                Action::Test(Pair::Outputs34)
            } else if id == IDC_METER {
                Action::SwitchMeter
            } else if id == IDCANCEL {
                Action::Close
            } else {
                Action::Nothing
            }
        } else {
            Action::Nothing
        }),
{
    if code == CBN_SELCHANGE && (id == IDC_RATE || id == IDC_BUFFER) {
        Action::ChangeSettings
    } else if code != BN_CLICKED {
        Action::Nothing
    } else if id == IDC_TEST12 {
        Action::Test(Pair::Outputs12)
    } else if id == IDC_TEST34 {
        Action::Test(Pair::Outputs34)
    } else if id == IDC_METER {
        Action::SwitchMeter
    } else if id == IDCANCEL {
        Action::Close
    } else {
        Action::Nothing
    }
}

/// What is selected in a list that reports `reply`: negative means nothing.
pub fn selection(reply: i64) -> (index: Option<u64>)
    ensures
        index == (if reply >= 0 {
            Some(reply as u64)
        } else {
            None
        }),
{
    if reply >= 0 {
        Some(reply as u64)
    } else {
        None
    }
}

/// The settings that the lists of rates and buffer sizes show: the first of
/// each where nothing is selected.
pub fn change_settings(rate: Option<usize>, buffer: Option<usize>) -> (settings: Settings)
    requires
        rate matches Some(rate) ==> rate < 5,
        buffer matches Some(buffer) ==> buffer < 4,
    ensures
        settings.sample_rate == RATES@[match rate {
            Some(rate) => rate as int,
            None => 0,
        }],
        settings.buffer_multiple == BUFFER_MULTIPLES@[match buffer {
            Some(buffer) => buffer as int,
            None => 0,
        }],
        settings.is_offered(),
{
    let rates: [u32; 5] = RATES;
    let multiples: [u32; 4] = BUFFER_MULTIPLES;
    let rate_index: usize = match rate {
        Some(rate) => rate,
        None => 0,
    };
    let buffer_index: usize = match buffer {
        Some(buffer) => buffer,
        None => 0,
    };
    Settings { sample_rate: rates[rate_index], buffer_multiple: multiples[buffer_index] }
}

/// Where the settings' rate and buffer size stand in their lists: the first
/// place where one is not in its list.
pub fn selected(settings: &Settings) -> (places: (usize, usize))
    ensures
        places.0 < 5,
        if RATES@.contains(settings.sample_rate) {
            RATES@[places.0 as int] == settings.sample_rate
        } else {
            places.0 == 0
        },
        places.1 < 4,
        if BUFFER_MULTIPLES@.contains(settings.buffer_multiple) {
            BUFFER_MULTIPLES@[places.1 as int] == settings.buffer_multiple
        } else {
            places.1 == 0
        },
{
    let rates: [u32; 5] = RATES;
    let multiples: [u32; 4] = BUFFER_MULTIPLES;
    let mut rate: usize = 0;
    while rate < 5 && rates[rate] != settings.sample_rate
        invariant
            rate <= 5,
            rates@ == RATES@,
            forall|k: int| 0 <= k < rate ==> rates@[k] != settings.sample_rate,
        decreases 5 - rate,
    {
        rate = rate + 1;
    }
    if rate == 5 {
        rate = 0;
    }
    let mut multiple: usize = 0;
    while multiple < 4 && multiples[multiple] != settings.buffer_multiple
        invariant
            multiple <= 4,
            multiples@ == BUFFER_MULTIPLES@,
            forall|k: int| 0 <= k < multiple ==> multiples@[k] != settings.buffer_multiple,
        decreases 4 - multiple,
    {
        multiple = multiple + 1;
    }
    if multiple == 4 {
        multiple = 0;
    }
    (rate, multiple)
}

/// "48000 Hz"
pub fn rate_label(rate: u32) -> (label: String)
    ensures
        label@ == decimal_nat(rate as int) + " Hz"@,
{
    let mut label: String = String::new();
    push_number(&mut label, rate as u64);
    label.append(" Hz");
    assert(label@ =~= decimal_nat(rate as int) + " Hz"@);
    label
}

/// The length of `frames` at `rate` in tenths of a millisecond, to the nearest.
pub open spec fn tenths_of_ms(frames: int, rate: int) -> int {
    (2 * frames * 10_000 + rate) / (2 * rate)
}

/// The label of a buffer of `multiple` times the smallest size at `rate`.
pub open spec fn buffer_label_spec(rate: int, multiple: int) -> Seq<char> {
    let frames = min_buffer_frames_spec(rate) * multiple;
    decimal_nat(frames) + " samples ("@ + decimal_tenths(tenths_of_ms(frames, rate)) + " ms)"@
}

/// The label of a buffer size, such as "512 samples (10.7 ms)".
pub fn buffer_label(rate: u32, multiple: u32) -> (label: String)
    requires
        is_offered_rate(rate as int),
        is_offered_multiple(multiple as int),
    ensures
        label@ == buffer_label_spec(rate as int, multiple as int),
{
    let least: u32 = min_buffer_frames(rate);
    assert(least * multiple <= 8 * least) by (nonlinear_arith)
        requires
            multiple <= 8,
            least >= 0,
    ;
    let frames: u32 = least * multiple;
    let tenths: u64 = (2 * (frames as u64) * 10_000 + rate as u64) / (2 * (rate as u64));
    let mut label: String = String::new();
    push_number(&mut label, frames as u64);
    label.append(" samples (");
    push_tenths(&mut label, tenths);
    label.append(" ms)");
    assert(label@ =~= buffer_label_spec(rate as int, multiple as int));
    label
}

/// The labels of the buffer sizes as they apply at `rate`.
pub fn buffer_labels(rate: u32) -> (labels: Vec<String>)
    requires
        is_offered_rate(rate as int),
    ensures
        labels.len() == 4,
        forall|i: int|
            0 <= i < 4 ==> (#[trigger] labels@[i])@ == buffer_label_spec(
                rate as int,
                BUFFER_MULTIPLES@[i] as int,
            ),
{
    let multiples: [u32; 4] = BUFFER_MULTIPLES;
    let mut labels: Vec<String> = Vec::new();
    let mut i: usize = 0;
    while i < 4
        invariant
            i <= 4,
            labels.len() == i,
            multiples@ == BUFFER_MULTIPLES@,
            is_offered_rate(rate as int),
            forall|k: int|
                0 <= k < i ==> (#[trigger] labels@[k])@ == buffer_label_spec(
                    rate as int,
                    BUFFER_MULTIPLES@[k] as int,
                ),
        decreases 4 - i,
    {
        labels.push(buffer_label(rate, multiples[i]));
        i = i + 1;
    }
    labels
}

/// What the lists show is what was selected in them.
pub proof fn law_selections_are_kept(rate: int, buffer: int, settings: Settings)
    requires
        0 <= rate < 5,
        0 <= buffer < 4,
        settings.sample_rate == RATES@[rate],
        settings.buffer_multiple == BUFFER_MULTIPLES@[buffer],
    ensures
        settings.is_offered(),
        forall|r: int| 0 <= r < 5 && #[trigger] RATES@[r] == settings.sample_rate ==> r == rate,
        forall|m: int|
            0 <= m < 4 && #[trigger] BUFFER_MULTIPLES@[m] == settings.buffer_multiple ==> m == buffer,
{
}

/// The service that the driver runs as.
pub const KERNEL_SERVICE: &'static str = "ak1acx";

pub const INSTANCE_PREFIX: &'static str = "USB\\VID_17CC&PID_0815\\";

pub const CR_SUCCESS: u32 = 0;

#[derive(Debug)]
pub enum Connection {
    Missing,
    Working { service: String },
    Problem(u32),
}

#[derive(Debug)]
pub struct Status {
    pub connection: Connection,
    pub driver_version: Option<String>,
    pub firmware: Option<u32>,
    /// Counters the kernel driver leaves when a stream ends, in the order of
    /// its snapshots.
    pub last_stream: Option<[u32; 9]>,
}

/// DN_HAS_PROBLEM of a device's status flags.
pub open spec fn has_problem(flags: u32) -> bool {
    (flags / 0x400) % 2 == 1
}

/// How a device that is there is doing: `result`, `flags` and `problem` are
/// what asking for its status gave, `service` is the one that drives it.
pub fn connection(result: u32, flags: u32, problem: u32, service: Option<String>) -> (connection: Connection)
    ensures
        if result == CR_SUCCESS && has_problem(flags) {
            connection == Connection::Problem(problem)
        } else {
            connection matches Connection::Working { service: given } && given@ == match service {
                Some(service) => service@,
                None => seq![],
            }
        },
{
    if result == CR_SUCCESS && (flags / 0x400) % 2 == 1 {
        return Connection::Problem(problem);
    }
    match service {
        Some(service) => Connection::Working { service },
        None => Connection::Working { service: String::new() },
    }
}

impl Status {
    /// No device is there.
    pub fn missing() -> (status: Status)
        ensures
            status.connection is Missing,
            status.driver_version is None,
            status.firmware is None,
            status.last_stream is None,
    {
        Status {
            connection: Connection::Missing,
            driver_version: None,
            firmware: None,
            last_stream: None,
        }
    }

    pub fn summary(&self) -> (text: String)
        ensures
            text@ == match self.connection {
                Connection::Missing => "Not connected."@,
                Connection::Working { service } => if lower(service@) == lower(KERNEL_SERVICE@) {
                    "Connected and working."@
                } else {
                    "Connected, but using the "@ + service@ + " driver instead of this one."@
                },
                Connection::Problem(code) => "Connected, but stopped with problem code "@ + decimal_nat(
                    code as int,
                ) + ". Unplug the card and plug it back in."@,
            },
    {
        match &self.connection {
            Connection::Missing => string_of("Not connected."),
            Connection::Working { service } => {
                if same_but_for_case(service.as_str(), KERNEL_SERVICE) {
                    string_of("Connected and working.")
                } else {
                    let mut text: String = string_of("Connected, but using the ");
                    text.append(service.as_str());
                    text.append(" driver instead of this one.");
                    text
                }
            },
            Connection::Problem(code) => {
                let mut text: String = string_of("Connected, but stopped with problem code ");
                push_number(&mut text, *code as u64);
                text.append(". Unplug the card and plug it back in.");
                text
            },
        }
    }

    pub fn versions(&self) -> (text: String)
        ensures
            text@ == "Driver "@ + (match self.driver_version {
                Some(version) => version@,
                None => "unknown"@,
            }) + (match self.firmware {
                Some(firmware) => ", firmware "@ + decimal_nat(firmware as int),
                None => seq![],
            }),
    {
        let mut text: String = string_of("Driver ");
        match &self.driver_version {
            Some(version) => {
                text.append(version.as_str());
            },
            None => {
                text.append("unknown");
            },
        }
        let ghost driver = text@;
        match self.firmware {
            Some(firmware) => {
                text.append(", firmware ");
                push_number(&mut text, firmware as u64);
                assert(text@ =~= driver + (", firmware "@ + decimal_nat(firmware as int)));
            },
            None => {
                assert(text@ =~= driver + Seq::<char>::empty());
            },
        }
        text
    }

    pub fn last_stream(&self) -> (text: String)
        ensures
            text@ == match self.last_stream {
                None => "No stream since the driver started."@,
                Some(counters) => "Last stream: "@ + decimal_tenths(
                    stream_tenths(counters@[0] as int),
                ) + " s, "@ + decimal_nat(counters@[8] as int) + " lost packets, "@ + decimal_nat(
                    counters@[3] as int,
                ) + " check errors, "@ + decimal_nat(counters@[7] as int) + " output overruns"@,
            },
    {
        match &self.last_stream {
            None => string_of("No stream since the driver started."),
            Some(counters) => {
                let mut text: String = string_of("Last stream: ");
                push_tenths(&mut text, (4 * (counters[0] as u64) + 50) / 100);
                text.append(" s, ");
                push_number(&mut text, counters[8] as u64);
                text.append(" lost packets, ");
                push_number(&mut text, counters[3] as u64);
                text.append(" check errors, ");
                push_number(&mut text, counters[7] as u64);
                text.append(" output overruns");
                text
            },
        }
    }
}

/// The length of a stream in tenths of a second, to the nearest: each capture
/// transfer that is counted covers 4 ms.
pub open spec fn stream_tenths(transfers: int) -> int {
    (4 * transfers + 50) / 100
}

/// The counters that 36 bytes of the hardware key hold.
pub open spec fn counter_at(bytes: Seq<u8>, index: int) -> int {
    le32_value(bytes[4 * index], bytes[4 * index + 1], bytes[4 * index + 2], bytes[4 * index + 3])
}

/// The counters of the last stream, where the value of the hardware key has
/// their length.
pub fn last_counters(bytes: &[u8]) -> (counters: Option<[u32; 9]>)
    ensures
        match counters {
            Some(counters) => {
                &&& bytes.len() == 36
                &&& forall|i: int| 0 <= i < 9 ==> #[trigger] counters@[i] == counter_at(bytes@, i)
            },
            None => bytes.len() != 36,
        },
{
    if bytes.len() != 36 {
        return None;
    }
    let mut counters: [u32; 9] = [0; 9];
    let mut i: usize = 0;
    while i < 9
        invariant
            i <= 9,
            bytes.len() == 36,
            forall|k: int| 0 <= k < i ==> #[trigger] counters@[k] == counter_at(bytes@, k),
        decreases 9 - i,
    {
        counters[i] = u32_from_le(
            bytes[4 * i],
            bytes[4 * i + 1],
            bytes[4 * i + 2],
            bytes[4 * i + 3],
        );
        i = i + 1;
    }
    Some(counters)
}

/// The firmware version, where the value of the hardware key has its length.
pub fn firmware_version(bytes: &[u8]) -> (version: Option<u32>)
    ensures
        match version {
            Some(version) => bytes.len() == 4 && version == le32_value(
                bytes[0],
                bytes[1],
                bytes[2],
                bytes[3],
            ),
            None => bytes.len() != 4,
        },
{
    if bytes.len() == 4 {
        Some(u32_from_le(bytes[0], bytes[1], bytes[2], bytes[3]))
    } else {
        None
    }
}

/// What the driver records of a stream is what the panel reads.
pub proof fn law_recorded_counters_are_read(counters: Seq<u32>, index: int)
    requires
        0 <= index < counters.len(),
    ensures
        counter_bytes(counters).len() == 4 * counters.len(),
        counter_at(counter_bytes(counters), index) == counters[index],
    decreases counters.len(),
{
    let rest = counters.drop_last();
    if rest.len() > 0 {
        law_recorded_counters_are_read(rest, if index < rest.len() {
            index
        } else {
            0
        });
    }
    let all = counter_bytes(counters);
    let before = counter_bytes(rest);
    if index < rest.len() {
        assert(all[4 * index] == before[4 * index]);
        assert(all[4 * index + 1] == before[4 * index + 1]);
        assert(all[4 * index + 2] == before[4 * index + 2]);
        assert(all[4 * index + 3] == before[4 * index + 3]);
    } else {
        crate::bytes::law_le32_round_trip(counters.last() as int);
    }
}

/// A word with a small ASCII letter made capital.
pub open spec fn upper_word(word: u16) -> u16 {
    if 97 <= word <= 122 {
        (word - 32) as u16
    } else {
        word
    }
}

/// Whether an instance identifier is one of the card's.
pub open spec fn is_card(id: Seq<u16>) -> bool {
    id.len() >= INSTANCE_PREFIX@.len() && forall|i: int|
        0 <= i < INSTANCE_PREFIX@.len() ==> upper_word(#[trigger] id[i]) == INSTANCE_PREFIX@[i] as u16
}

/// The words of `list` from `from` up to the next NUL or the end.
pub open spec fn piece_end(list: Seq<u16>, from: int) -> int
    decreases list.len() - from,
{
    if from < 0 || from >= list.len() || list[from] == 0 {
        from
    } else {
        piece_end(list, from + 1)
    }
}

/// The first of the NUL-separated identifiers of `list` from `from` on that is
/// one of the card's.
pub open spec fn find_card_spec(list: Seq<u16>, from: int) -> Option<Seq<u16>>
    decreases list.len() - from,
{
    let end = piece_end(list, from);
    if from < 0 || from > list.len() {
        None
    } else if is_card(list.subrange(from, end)) {
        Some(list.subrange(from, end))
    } else if end >= list.len() {
        None
    } else {
        proof {
            lemma_piece_end(list, from);
        }
        find_card_spec(list, end + 1)
    }
}

/// A piece ends at a NUL or at the end of the list.
pub proof fn lemma_piece_end(list: Seq<u16>, from: int)
    requires
        0 <= from <= list.len(),
    ensures
        from <= piece_end(list, from) <= list.len(),
        piece_end(list, from) < list.len() ==> list[piece_end(list, from)] == 0,
        forall|i: int| from <= i < piece_end(list, from) ==> list[i] != 0,
    decreases list.len() - from,
{
    if from < list.len() && list[from] != 0 {
        lemma_piece_end(list, from + 1);
    }
}

/// Whether the words of `list` from `from` to `end` are an instance identifier
/// of the card's.
fn is_card_at(list: &[u16], from: usize, end: usize) -> (card: bool)
    requires
        from <= end <= list.len(),
    ensures
        card == is_card(list@.subrange(from as int, end as int)),
{
    let prefix: Vec<char> = chars_of(INSTANCE_PREFIX);
    let ghost id = list@.subrange(from as int, end as int);
    if end - from < prefix.len() {
        return false;
    }
    let mut i: usize = 0;
    while i < prefix.len()
        invariant
            i <= prefix.len(),
            from + prefix.len() <= end <= list.len(),
            prefix@ == INSTANCE_PREFIX@,
            id == list@.subrange(from as int, end as int),
            forall|k: int| 0 <= k < i ==> upper_word(#[trigger] id[k]) == INSTANCE_PREFIX@[k] as u16,
        decreases prefix.len() - i,
    {
        let word: u16 = list[from + i];
        let upper: u16 = if 97 <= word && word <= 122 {
            word - 32
        } else {
            word
        };
        assert(id[i as int] == word);
        if upper != prefix[i] as u16 {
            return false;
        }
        i = i + 1;
    }
    true
}

/// The first identifier of the card's in a list of NUL-separated ones.
pub fn find_card(list: &[u16]) -> (id: Option<Vec<u16>>)
    ensures
        match id {
            Some(id) => find_card_spec(list@, 0) == Some(id@),
            None => find_card_spec(list@, 0) is None,
        },
{
    let mut from: usize = 0;
    loop
        invariant
            from <= list.len(),
            find_card_spec(list@, 0) == find_card_spec(list@, from as int),
        decreases list.len() - from,
    {
        let mut end: usize = from;
        while end < list.len() && list[end] != 0
            invariant
                from <= end <= list.len(),
                piece_end(list@, from as int) == piece_end(list@, end as int),
            decreases list.len() - end,
        {
            end = end + 1;
        }
        assert(end == piece_end(list@, from as int));
        if is_card_at(list, from, end) {
            return Some(words_between(list, from, end));
        }
        if end >= list.len() {
            return None;
        }
        from = end + 1;
    }
}

fn words_between(list: &[u16], from: usize, end: usize) -> (words: Vec<u16>)
    requires
        from <= end <= list.len(),
    ensures
        words@ == list@.subrange(from as int, end as int),
{
    let mut words: Vec<u16> = Vec::new();
    let mut i: usize = from;
    while i < end
        invariant
            from <= i <= end <= list.len(),
            words@ =~= list@.subrange(from as int, i as int),
        decreases end - i,
    {
        words.push(list[i]);
        i = i + 1;
    }
    words
}

/// A text property of `size` bytes: the words before the first NUL.
pub fn property_text(buffer: &[u16], size: u32) -> (words: Vec<u16>)
    requires
        size / 2 <= buffer.len(),
    ensures
        words@ == buffer@.subrange(
            0,
            piece_end(buffer@.subrange(0, size as int / 2), 0),
        ),
{
    let count: usize = (size / 2) as usize;
    let ghost text = buffer@.subrange(0, count as int);
    let mut end: usize = 0;
    while end < count && buffer[end] != 0
        invariant
            end <= count <= buffer.len(),
            text == buffer@.subrange(0, count as int),
            piece_end(text, 0) == piece_end(text, end as int),
        decreases count - end,
    {
        end = end + 1;
    }
    words_between(buffer, 0, end)
}

/// Whether a test may start, given whether one is running.
#[derive(Clone, Copy, Debug, PartialEq, Eq, Structural)]
pub struct Tests {
    pub running: bool,
}

impl Tests {
    pub fn new() -> (tests: Tests)
        ensures
            !tests.running,
    {
        Tests { running: false }
    }

    /// Starts a test where none is running.
    pub fn start(&mut self) -> (started: bool)
        ensures
            started == !old(self).running,
            final(self).running,
    {
        let started = !self.running;
        self.running = true;
        started
    }

    pub fn finished(&mut self)
        ensures
            !final(self).running,
    {
        self.running = false;
    }
}

/// What the system's messages mean: a command carries the number of its control
/// in its low word and what happened above it.
pub proof fn law_messages_are_told_apart(id: u16, code: u32, wparam: u64, message: u32)
    ensures
        dialog_spec(0x110, wparam) == Message::Init,
        dialog_spec(0x111, (id + 65536 * code) as u64) == (Message::Command { id, code }),
        dialog_spec(0x113, STATUS_TIMER as u64) == Message::ShowStatus,
        dialog_spec(0x113, METER_TIMER as u64) == Message::UpdateMeter,
        wparam != STATUS_TIMER && wparam != METER_TIMER ==> dialog_spec(0x113, wparam)
            == Message::OtherTimer,
        dialog_spec(0x10, wparam) == Message::Close,
        message != 0x10 && message != 0x110 && message != 0x111 && message != 0x113
            ==> dialog_spec(message, wparam) == Message::Ignored,
        STATUS_TIMER != METER_TIMER,
{
}

/// Times are shown to the nearest tenth: of a millisecond for a buffer, and of a
/// second for a stream, whose transfers take four milliseconds each.
pub proof fn law_times_are_rounded(frames: int, rate: int, transfers: int)
    requires
        frames >= 0,
        rate > 0,
        transfers >= 0,
    ensures
        2 * (tenths_of_ms(frames, rate) * rate) <= 20_000 * frames + rate,
        20_000 * frames < 2 * (tenths_of_ms(frames, rate) * rate) + rate,
        100 * stream_tenths(transfers) <= 4 * transfers + 50,
        4 * transfers < 100 * stream_tenths(transfers) + 50,
{
    let sum = 2 * frames * 10_000 + rate;
    let tenths = tenths_of_ms(frames, rate);
    assert(tenths * (2 * rate) <= sum < tenths * (2 * rate) + 2 * rate) by (nonlinear_arith)
        requires
            tenths == sum / (2 * rate),
            rate > 0,
    ;
    assert(tenths * (2 * rate) == 2 * (tenths * rate)) by (nonlinear_arith);
}

/// A counter is read from its four bytes, the low one first.
pub proof fn law_counters_are_read_low_byte_first(bytes: Seq<u8>, index: int)
    ensures
        counter_at(bytes, index) == bytes[4 * index] + 256 * bytes[4 * index + 1] + 65536 * bytes[4
            * index + 2] + 16777216 * bytes[4 * index + 3],
{
}

/// A device has a problem where the bit of that is set among its flags.
pub proof fn law_problems_are_one_bit(flags: u32)
    ensures
        has_problem(flags) <==> flags & 0x400 != 0,
{
    assert(((flags / 0x400) % 2 == 1) == (flags & 0x400 != 0)) by (bit_vector);
}

/// Only the small letters of ASCII are made capital, each to its letter.
pub proof fn law_capital_words(word: u16)
    ensures
        97 <= word <= 122 ==> upper_word(word) + 32 == word,
        !(97 <= word <= 122) ==> upper_word(word) == word,
{
}

/// Of identifiers between NULs the first that is the card's is found: the one
/// before the first NUL, or else one of those behind it.
pub proof fn law_first_card_is_found(first: Seq<u16>, rest: Seq<u16>)
    requires
        forall|i: int| 0 <= i < first.len() ==> #[trigger] first[i] != 0,
    ensures
        is_card(first) ==> find_card_spec(first, 0) == Some(first),
        !is_card(first) ==> find_card_spec(first, 0) is None,
        is_card(first) ==> find_card_spec(first.push(0) + rest, 0) == Some(first),
        !is_card(first) ==> find_card_spec(first.push(0) + rest, 0) == find_card_spec(
            first.push(0) + rest,
            first.len() as int + 1,
        ),
{
    let list = first.push(0) + rest;
    lemma_piece_end(first, 0);
    assert(piece_end(first, 0) == first.len());
    assert(first.subrange(0, first.len() as int) =~= first);
    lemma_piece_end(list, 0);
    let end = piece_end(list, 0);
    if end < first.len() {
        assert(list[end] == first[end]);
    }
    if end > first.len() {
        assert(list[first.len() as int] == 0);
    }
    assert(list.subrange(0, first.len() as int) =~= first);
}

/// What is found behind a part of a list is found in the rest alone.
pub proof fn law_cards_are_found_in_the_rest(head: Seq<u16>, list: Seq<u16>, from: int)
    requires
        0 <= from <= list.len(),
    ensures
        piece_end(head + list, head.len() + from) == head.len() + piece_end(list, from),
        find_card_spec(head + list, head.len() + from) == find_card_spec(list, from),
    decreases list.len() - from,
{
    lemma_piece_in_the_rest(head, list, from);
    lemma_piece_end(list, from);
    let end = piece_end(list, from);
    assert((head + list).subrange(head.len() + from, head.len() + end) =~= list.subrange(from, end));
    if end < list.len() {
        law_cards_are_found_in_the_rest(head, list, end + 1);
    }
}

proof fn lemma_piece_in_the_rest(head: Seq<u16>, list: Seq<u16>, from: int)
    requires
        0 <= from <= list.len(),
    ensures
        piece_end(head + list, head.len() + from) == head.len() + piece_end(list, from),
    decreases list.len() - from,
{
    if from < list.len() && list[from] != 0 {
        lemma_piece_in_the_rest(head, list, from + 1);
    }
}

/// What is selected in the lists is what the settings are then found at.
pub proof fn law_settings_are_found_where_selected(
    rate: usize,
    buffer: usize,
    settings: Settings,
    places: (usize, usize),
)
    requires
        rate < 5,
        buffer < 4,
        call_ensures(change_settings, (Some(rate), Some(buffer)), settings),
        call_ensures(selected, (&settings,), places),
    ensures
        places.0 == rate,
        places.1 == buffer,
        settings.sample_rate == (match rate {
            0 => 44_100u32,
            1 => 48_000u32,
            2 => 88_200u32,
            3 => 96_000u32,
            _ => 192_000u32,
        }),
        settings.buffer_multiple == (match buffer {
            0 => 1u32,
            1 => 2u32,
            2 => 4u32,
            _ => 8u32,
        }),
{
    assert(RATES@[rate as int] == settings.sample_rate);
    assert(BUFFER_MULTIPLES@[buffer as int] == settings.buffer_multiple);
    assert(RATES@.contains(settings.sample_rate));
    assert(BUFFER_MULTIPLES@.contains(settings.buffer_multiple));
    law_selections_are_kept(rate as int, buffer as int, settings);
}

/// A change in either list changes the settings, the buttons test their pairs of
/// outputs, and a change elsewhere or any other notification is nothing.
pub proof fn law_controls_do_their_work(id: u16, code: u32, action: Action)
    requires
        call_ensures(command, (id, code), action),
    ensures
        action == Action::ChangeSettings <==> code == 1 && (id == IDC_RATE || id == IDC_BUFFER),
        action == Action::Test(Pair::Outputs12) <==> code == 0 && id == IDC_TEST12,
        action == Action::Test(Pair::Outputs34) <==> code == 0 && id == IDC_TEST34,
        action == Action::SwitchMeter <==> code == 0 && id == IDC_METER,
        action == Action::Close <==> code == 0 && id == IDCANCEL,
{
}

/// A buffer's label has its frames, those of the smallest buffer times the
/// multiple, and its time.
pub proof fn law_buffer_labels(rate: int)
    ensures
        buffer_label_spec(rate, 1) == decimal_nat(min_buffer_frames_spec(rate)) + " samples ("@
            + decimal_tenths(tenths_of_ms(min_buffer_frames_spec(rate), rate)) + " ms)"@,
        buffer_label_spec(rate, 2) == decimal_nat(2 * min_buffer_frames_spec(rate)) + " samples ("@
            + decimal_tenths(tenths_of_ms(2 * min_buffer_frames_spec(rate), rate)) + " ms)"@,
        buffer_label_spec(rate, 4) == decimal_nat(4 * min_buffer_frames_spec(rate)) + " samples ("@
            + decimal_tenths(tenths_of_ms(4 * min_buffer_frames_spec(rate), rate)) + " ms)"@,
        buffer_label_spec(rate, 8) == decimal_nat(8 * min_buffer_frames_spec(rate)) + " samples ("@
            + decimal_tenths(tenths_of_ms(8 * min_buffer_frames_spec(rate), rate)) + " ms)"@,
{
}

/// An identifier is the card's where it begins with the bus and the device's
/// numbers, each letter in capitals or not.
pub proof fn law_cards_are_known_by_their_prefix(id: Seq<u16>)
    ensures
        ({
            let prefix = "USB\\VID_17CC&PID_0815\\"@;
            is_card(id) <==> id.len() >= prefix.len() && forall|i: int|
                0 <= i < prefix.len() ==> #[trigger] id[i] == prefix[i] as int || (65
                    <= prefix[i] as int <= 90 && id[i] == prefix[i] as int + 32)
        }),
{
    reveal_strlit("USB\\VID_17CC&PID_0815\\");
    let prefix = "USB\\VID_17CC&PID_0815\\"@;
    assert(prefix.len() == 22);
    assert(prefix[0] == 'U');
    assert(prefix[1] == 'S');
    assert(prefix[2] == 'B');
    assert(prefix[3] == '\\');
    assert(prefix[4] == 'V');
    assert(prefix[5] == 'I');
    assert(prefix[6] == 'D');
    assert(prefix[7] == '_');
    assert(prefix[8] == '1');
    assert(prefix[9] == '7');
    assert(prefix[10] == 'C');
    assert(prefix[11] == 'C');
    assert(prefix[12] == '&');
    assert(prefix[13] == 'P');
    assert(prefix[14] == 'I');
    assert(prefix[15] == 'D');
    assert(prefix[16] == '_');
    assert(prefix[17] == '0');
    assert(prefix[18] == '8');
    assert(prefix[19] == '1');
    assert(prefix[20] == '5');
    assert(prefix[21] == '\\');
    assert forall|i: int| 0 <= i < 22 implies (prefix[i] as int) < 97 by {
        assert(i == 0 || i == 1 || i == 2 || i == 3 || i == 4 || i == 5 || i == 6 || i == 7
            || i == 8 || i == 9 || i == 10 || i == 11 || i == 12 || i == 13 || i == 14
            || i == 15 || i == 16 || i == 17 || i == 18 || i == 19 || i == 20 || i == 21);
    }
    if is_card(id) {
        assert forall|i: int| 0 <= i < prefix.len() implies #[trigger] id[i] == prefix[i] as int || (
        65 <= prefix[i] as int <= 90 && id[i] == prefix[i] as int + 32) by {
            assert(upper_word(id[i]) == prefix[i] as u16);
            assert((prefix[i] as int) < 97);
        }
    }
    if id.len() >= prefix.len() && forall|i: int|
        0 <= i < prefix.len() ==> #[trigger] id[i] == prefix[i] as int || (65 <= prefix[i] as int
            <= 90 && id[i] == prefix[i] as int + 32) {
        assert forall|i: int| 0 <= i < INSTANCE_PREFIX@.len() implies upper_word(#[trigger] id[i])
            == INSTANCE_PREFIX@[i] as u16 by {
            assert((prefix[i] as int) < 97);
        }
    }
}

} // verus!
