//! What the ASIO driver object answers its host.

use vstd::prelude::*;

use crate::abi::{
    c_string, split, write_c_string, AsioBool, AsioBufferInfo, AsioChannelInfo, AsioClockSource,
    AsioError, AsioU64, ASE_HW_MALFUNCTION, ASE_INVALID_MODE, ASE_INVALID_PARAMETER, ASE_NOT_PRESENT,
    ASE_NO_CLOCK, ASE_OK, ASE_SUCCESS, ASIO_ST_INT32_LSB, K_ASIO_CAN_TIME_INFO,
};
use crate::com::{HResult, E_NOINTERFACE, E_POINTER, IID_IUNKNOWN, S_OK};
use crate::duplex::{Clock, Host, HostView, AUDCLNT_E_UNSUPPORTED_FORMAT, INPUTS, OUTPUTS};
use crate::settings::{
    is_offered_rate, is_rate, min_buffer_frames, min_buffer_frames_spec, Settings, TRANSFER_MS,
};
use crate::text::{
    decimal, decimal_nat, law_digits_are_by_tens, push_number, push_signed, string_of,
};
use vstd::utf8::encode_utf8;

verus! {

pub const CLSID: u128 = 0x3f1c6b2a_8e4d_4c7b_9a15_2d6e8f0b4c31;

pub const DRIVER_NAME: &'static str = "Audio Kontrol 1";

pub const DRIVER_VERSION: i32 = 1;

/// Bytes of the strings that a host takes.
pub const NAME_BYTES: usize = 32;

pub const MESSAGE_BYTES: usize = 124;

/// The buffers a host has made.
#[derive(Clone, Copy, Debug)]
pub struct Session {
    pub buffer_frames: usize,
    pub active_inputs: [bool; INPUTS],
    pub active_outputs: [bool; OUTPUTS],
    pub running: bool,
}

/// A session as a value.
#[verifier::ext_equal]
pub struct SessionView {
    pub frames: int,
    pub inputs: Seq<bool>,
    pub outputs: Seq<bool>,
    pub running: bool,
}

impl View for Session {
    type V = SessionView;

    open spec fn view(&self) -> SessionView {
        SessionView {
            frames: self.buffer_frames as int,
            inputs: self.active_inputs@,
            outputs: self.active_outputs@,
            running: self.running,
        }
    }
}

#[derive(Debug)]
pub struct Driver {
    settings: Settings,
    com: bool,
    endpoints: bool,
    error: String,
    rate: u32,
    session: Option<Session>,
}

/// A driver as a value.
#[verifier::ext_equal]
pub struct DriverView {
    pub settings: Settings,
    /// Whether COM was started.
    pub com: bool,
    /// Whether the device's endpoints were found.
    pub endpoints: bool,
    /// What went wrong last.
    pub error: Seq<char>,
    pub rate: u32,
    pub session: Option<SessionView>,
}

/// What is left to do of a request.
#[derive(Clone, Copy, Debug, PartialEq, Eq, Structural)]
pub enum Step {
    /// Nothing: this is the answer.
    Done(AsioError),
    /// The streams have to be started or stopped first.
    Streams,
}

impl View for Driver {
    type V = DriverView;

    closed spec fn view(&self) -> DriverView {
        DriverView {
            settings: self.settings,
            com: self.com,
            endpoints: self.endpoints,
            error: self.error@,
            rate: self.rate,
            session: match self.session {
                Some(session) => Some(session@),
                None => None,
            },
        }
    }
}

/// Why the streams could not be opened: a result code and its text.
pub struct OpenFailure<'a> {
    pub code: HResult,
    pub text: &'a str,
}

impl DriverView {
    pub open spec fn wf(self) -> bool {
        &&& self.settings.is_offered()
        &&& is_offered_rate(self.rate as int)
        &&& self.session matches Some(session) ==> {
            &&& 0 < session.frames <= 0x80_0000
            &&& session.inputs.len() == INPUTS
            &&& session.outputs.len() == OUTPUTS
        }
    }

    pub open spec fn failed(self, message: Seq<char>) -> DriverView {
        DriverView { error: message, ..self }
    }

    pub open spec fn min_frames(self) -> int {
        min_buffer_frames_spec(self.rate as int)
    }

    /// The buffer size in use, or the smallest one.
    pub open spec fn current_frames(self) -> int {
        match self.session {
            Some(session) => session.frames,
            None => self.min_frames(),
        }
    }
}

/// Whether a host's list names a channel that there is.
pub open spec fn is_channel(info: AsioBufferInfo) -> bool {
    0 <= info.channel_num < (if info.is_input != 0 {
        INPUTS as int
    } else {
        OUTPUTS as int
    })
}

/// The last of `infos` that names input or output `channel`.
pub open spec fn buffer_of(infos: Seq<AsioBufferInfo>, input: bool, channel: int) -> Option<usize>
    decreases infos.len(),
{
    if infos.len() == 0 {
        None
    } else if (infos.last().is_input != 0) == input && infos.last().channel_num == channel {
        Some((infos.len() - 1) as usize)
    } else {
        buffer_of(infos.drop_last(), input, channel)
    }
}

/// The first of `infos` from `from` on that names no channel.
pub open spec fn first_unknown(infos: Seq<AsioBufferInfo>, from: int) -> Option<i32>
    decreases infos.len() - from,
{
    if from < 0 || from >= infos.len() {
        None
    } else if !is_channel(infos[from]) {
        Some(infos[from].channel_num)
    } else {
        first_unknown(infos, from + 1)
    }
}

/// The buffers that a host's list asks for.
pub open spec fn host_spec(infos: Seq<AsioBufferInfo>, frames: int, rate: u32) -> HostView {
    HostView {
        time_info: false,
        frames,
        rate,
        inputs: Seq::new(2, |c: int| buffer_of(infos, true, c)),
        outputs: Seq::new(4, |c: int| buffer_of(infos, false, c)),
        buffers: Seq::new(infos.len(), |i: int| Seq::new((2 * frames) as nat, |k: int| 0i32)),
    }
}

/// What is wrong with a request for buffers.
pub enum BufferFault {
    AlreadyThere,
    NotInitialized,
    Size,
    Channel(i32),
}

impl DriverView {
    /// What is wrong with a request for buffers, the first thing first.
    pub open spec fn buffer_fault(
        self,
        infos: Option<Seq<AsioBufferInfo>>,
        callbacks: bool,
        channels: int,
        size: int,
    ) -> Option<BufferFault> {
        if self.session is Some {
            Some(BufferFault::AlreadyThere)
        } else if !self.endpoints {
            Some(BufferFault::NotInitialized)
        } else if infos is None || !callbacks || channels <= 0 || size < self.min_frames() || size > 8
            * self.min_frames() {
            Some(BufferFault::Size)
        } else {
            match first_unknown(infos->0, 0) {
                Some(channel) => Some(BufferFault::Channel(channel)),
                None => None,
            }
        }
    }

    pub open spec fn fault_code(fault: BufferFault) -> AsioError {
        match fault {
            BufferFault::AlreadyThere => ASE_INVALID_MODE,
            BufferFault::NotInitialized => ASE_NOT_PRESENT,
            BufferFault::Size => ASE_INVALID_PARAMETER,
            BufferFault::Channel(_) => ASE_INVALID_PARAMETER,
        }
    }

    pub open spec fn fault_message(self, fault: BufferFault, size: int) -> Seq<char> {
        match fault {
            BufferFault::AlreadyThere => "buffers already exist"@,
            BufferFault::NotInitialized => "driver not initialized"@,
            BufferFault::Size => "buffer size "@ + decimal(size) + " outside "@ + decimal(
                self.min_frames(),
            ) + "..="@ + decimal(8 * self.min_frames()),
            BufferFault::Channel(channel) => "no channel "@ + decimal(channel as int),
        }
    }
}

impl Driver {
    /// A driver as it is before its host has called it, with the settings of
    /// the control panel.
    pub fn new(settings: Settings) -> (driver: Driver)
        requires
            settings.is_offered(),
        ensures
            driver@ == (DriverView {
                settings,
                com: false,
                endpoints: false,
                error: seq![],
                rate: settings.sample_rate,
                session: None,
            }),
            driver@.wf(),
    {
        Driver {
            settings,
            com: false,
            endpoints: false,
            error: String::new(),
            rate: settings.sample_rate,
            session: None,
        }
    }

    fn fail(&mut self, error: AsioError, message: String) -> (code: AsioError)
        ensures
            code == error,
            final(self)@ == old(self)@.failed(message@),
    {
        self.error = message;
        error
    }

    /// Whether COM still has to be started.
    pub fn needs_com(&self) -> (needs: bool)
        ensures
            needs == !self@.com,
    {
        !self.com
    }

    /// COM was started, or not for the reason given. Tells whether to go on.
    pub fn com_started(&mut self, started: Result<(), &str>) -> (go_on: bool)
        requires
            old(self)@.wf(),
        ensures
            go_on == started is Ok,
            final(self)@ == match started {
                Ok(()) => DriverView { com: true, ..old(self)@ },
                Err(text) => old(self)@.failed("starting COM failed: "@ + text@),
            },
            final(self)@.wf(),
    {
        match started {
            Ok(()) => {
                self.com = true;
                true
            },
            Err(text) => {
                let mut message: String = string_of("starting COM failed: ");
                message.append(text);
                self.error = message;
                false
            },
        }
    }

    /// The endpoints were looked for: found or not, or looking failed.
    pub fn init(&mut self, found: Result<bool, &str>) -> (ready: AsioBool)
        requires
            old(self)@.wf(),
        ensures
            ready == (if found == Ok::<bool, &str>(true) {
                1int
            } else {
                0
            }),
            final(self)@ == match found {
                Ok(true) => DriverView { endpoints: true, ..old(self)@ },
                Ok(false) => old(self)@.failed(
                    "Audio Kontrol 1 endpoints not found; is the device connected?"@,
                ),
                Err(text) => old(self)@.failed("enumerating audio endpoints failed: "@ + text@),
            },
            final(self)@.wf(),
    {
        match found {
            Ok(true) => {
                self.endpoints = true;
                1
            },
            Ok(false) => {
                self.error = string_of(
                    "Audio Kontrol 1 endpoints not found; is the device connected?",
                );
                0
            },
            Err(text) => {
                let mut message: String = string_of("enumerating audio endpoints failed: ");
                message.append(text);
                self.error = message;
                0
            },
        }
    }

    pub fn get_driver_name(&self, name: &mut [u8])
        requires
            old(name).len() == NAME_BYTES,
        ensures
            final(name)@ == c_string(old(name)@, encode_utf8(DRIVER_NAME@)),
    {
        write_c_string(name, DRIVER_NAME);
    }

    pub fn get_driver_version(&self) -> (version: i32)
        ensures
            version == DRIVER_VERSION,
    {
        DRIVER_VERSION
    }

    pub fn get_error_message(&self, message: &mut [u8])
        requires
            old(message).len() == MESSAGE_BYTES,
        ensures
            final(message)@ == c_string(old(message)@, encode_utf8(self@.error)),
    {
        write_c_string(message, self.error.as_str());
    }

    /// The host wants the streams to run.
    pub fn start(&mut self) -> (step: Step)
        requires
            old(self)@.wf(),
        ensures
            match old(self)@.session {
                None => {
                    &&& step == Step::Done(ASE_INVALID_MODE)
                    &&& final(self)@ == old(self)@.failed("start called before createBuffers"@)
                },
                Some(session) => {
                    &&& step == (if session.running {
                        Step::Done(ASE_OK)
                    } else {
                        Step::Streams
                    })
                    &&& final(self)@ == old(self)@
                },
            },
            final(self)@.wf(),
    {
        match self.session {
            None => Step::Done(
                self.fail(ASE_INVALID_MODE, string_of("start called before createBuffers")),
            ),
            Some(session) => if session.running {
                Step::Done(ASE_OK)
            } else {
                Step::Streams
            },
        }
    }

    /// The streams were started, or not for the reason given.
    pub fn started(&mut self, result: Result<(), &str>) -> (code: AsioError)
        requires
            old(self)@.wf(),
            old(self)@.session is Some,
        ensures
            match result {
                Ok(()) => {
                    &&& code == ASE_OK
                    &&& final(self)@ == (DriverView {
                        session: Some(SessionView { running: true, ..old(self)@.session->0 }),
                        ..old(self)@
                    })
                },
                Err(text) => {
                    &&& code == ASE_HW_MALFUNCTION
                    &&& final(self)@ == old(self)@.failed("starting streams failed: "@ + text@)
                },
            },
            final(self)@.wf(),
    {
        match result {
            Ok(()) => {
                match &mut self.session {
                    Some(session) => {
                        session.running = true;
                    },
                    None => {},
                }
                ASE_OK
            },
            Err(text) => {
                let mut message: String = string_of("starting streams failed: ");
                message.append(text);
                self.fail(ASE_HW_MALFUNCTION, message)
            },
        }
    }

    /// The host wants the streams to stop. They are taken as stopped; the
    /// answer is always that they are.
    pub fn stop(&mut self) -> (step: Step)
        requires
            old(self)@.wf(),
        ensures
            match old(self)@.session {
                Some(session) if session.running => {
                    &&& step == Step::Streams
                    &&& final(self)@ == (DriverView {
                        session: Some(SessionView { running: false, ..session }),
                        ..old(self)@
                    })
                },
                _ => step == Step::Done(ASE_OK) && final(self)@ == old(self)@,
            },
            final(self)@.wf(),
    {
        match &mut self.session {
            Some(session) => if session.running {
                session.running = false;
                Step::Streams
            } else {
                Step::Done(ASE_OK)
            },
            None => Step::Done(ASE_OK),
        }
    }

    /// How many inputs and outputs there are.
    pub fn get_channels(&self) -> (channels: (i32, i32))
        ensures
            channels == (2i32, 4i32),
    {
        (INPUTS as i32, OUTPUTS as i32)
    }

    /// Input and output latency in frames: one buffer in and two out, and the
    /// transfer on the bus.
    pub fn get_latencies(&self) -> (latencies: (i32, i32))
        requires
            self@.wf(),
        ensures
            latencies.0 == self@.current_frames() + self@.rate * 4 / 1000,
            latencies.1 == 2 * self@.current_frames() + self@.rate * 4 / 1000,
    {
        let frames: i32 = match self.session {
            Some(session) => session.buffer_frames as i32,
            None => min_buffer_frames(self.rate) as i32,
        };
        let transfer: i32 = (self.rate * TRANSFER_MS / 1000) as i32;
        (frames + transfer, 2 * frames + transfer)
    }

    /// The smallest, largest and preferred buffer size, and that sizes are
    /// powers of two.
    pub fn get_buffer_size(&self) -> (sizes: (i32, i32, i32, i32))
        requires
            self@.wf(),
        ensures
            sizes.0 == self@.min_frames(),
            sizes.1 == 8 * self@.min_frames(),
            sizes.2 == self@.settings.buffer_frames_spec(self@.rate as int),
            sizes.3 == -1,
    {
        let smallest: i32 = min_buffer_frames(self.rate) as i32;
        proof {
            let multiple = self.settings.buffer_multiple as int;
            let frames = self@.min_frames();
            assert(frames * multiple <= 8 * frames && 0 <= frames * multiple) by (nonlinear_arith)
                requires
                    1 <= multiple <= 8,
                    frames >= 1,
            ;
        }
        let preferred: i32 = self.settings.buffer_frames(self.rate) as i32;
        (smallest, 8 * smallest, preferred, -1)
    }

    /// Whether the device runs at `rate`, where that is a whole number.
    pub fn can_sample_rate(&self, rate: Option<u32>) -> (code: AsioError)
        ensures
            code == match rate {
                Some(rate) if is_offered_rate(rate as int) => ASE_OK,
                _ => ASE_NO_CLOCK,
            },
    {
        match rate {
            Some(rate) => if is_rate(rate) {
                ASE_OK
            } else {
                ASE_NO_CLOCK
            },
            None => ASE_NO_CLOCK,
        }
    }

    pub fn get_sample_rate(&self) -> (rate: u32)
        ensures
            rate == self@.rate,
    {
        self.rate
    }

    /// Changes the rate, where `rate` is a whole number and one the device
    /// runs at; `text` is how the host gave it. Also tells whether the host is
    /// to be asked to make its buffers anew: streams are opened at one rate.
    pub fn set_sample_rate(&mut self, rate: Option<u32>, text: &str) -> (answer: (AsioError, bool))
        requires
            old(self)@.wf(),
        ensures
            match rate {
                Some(rate) if is_offered_rate(rate as int) => {
                    &&& final(self)@ == (DriverView { rate, ..old(self)@ })
                    &&& answer.0 == ASE_OK
                    &&& answer.1 == (rate != old(self)@.rate && old(self)@.session is Some)
                },
                _ => {
                    &&& final(self)@ == old(self)@.failed("unsupported sample rate "@ + text@)
                    &&& answer.0 == ASE_NO_CLOCK
                    &&& !answer.1
                },
            },
            final(self)@.wf(),
    {
        match rate {
            Some(rate) => {
                if is_rate(rate) {
                    let reset = rate != self.rate && self.session.is_some();
                    self.rate = rate;
                    return (ASE_OK, reset);
                }
            },
            None => {},
        }
        let mut message: String = string_of("unsupported sample rate ");
        message.append(text);
        (self.fail(ASE_NO_CLOCK, message), false)
    }

    /// The control panel changed the settings. Tells whether the host is to
    /// be asked to make its buffers anew: it is where it has buffers and the
    /// size offered to it changes.
    pub fn settings_changed(&mut self, settings: Settings) -> (reset: bool)
        requires
            old(self)@.wf(),
            settings.is_offered(),
        ensures
            final(self)@ == (DriverView { settings, ..old(self)@ }),
            reset == (old(self)@.session is Some && settings.buffer_multiple
                != old(self)@.settings.buffer_multiple),
            final(self)@.wf(),
    {
        let reset = self.session.is_some() && settings.buffer_multiple
            != self.settings.buffer_multiple;
        self.settings = settings;
        reset
    }

    /// The only clock, for a list with room for `count`; `None` where the host
    /// gave no list or no count.
    pub fn get_clock_sources(&self, count: Option<i32>) -> (clock: Result<AsioClockSource, AsioError>)
        ensures
            match clock {
                Ok(clock) => {
                    &&& count matches Some(count) && count >= 1
                    &&& clock.index == 0
                    &&& clock.associated_channel == -1
                    &&& clock.associated_group == -1
                    &&& clock.is_current_source == 1
                    &&& clock.name@ == c_string(
                        Seq::new(32, |i: int| 0u8),
                        encode_utf8("Internal"@),
                    )
                },
                Err(code) => {
                    &&& code == ASE_INVALID_PARAMETER
                    &&& !(count matches Some(count) && count >= 1)
                },
            },
    {
        let room: i32 = match count {
            Some(count) => count,
            None => 0,
        };
        if room < 1 {
            return Err(ASE_INVALID_PARAMETER);
        }
        let mut name: [u8; 32] = [0; 32];
        assert(name@ =~= Seq::new(32, |i: int| 0u8));
        write_c_string(&mut name, "Internal");
        Ok(
            AsioClockSource {
                index: 0,
                associated_channel: -1,
                associated_group: -1,
                is_current_source: 1,
                name,
            },
        )
    }

    pub fn set_clock_source(&self, reference: i32) -> (code: AsioError)
        ensures
            code == (if reference == 0 {
                ASE_OK
            } else {
                ASE_INVALID_PARAMETER
            }),
    {
        if reference == 0 {
            ASE_OK
        } else {
            ASE_INVALID_PARAMETER
        }
    }

    /// Position and time of the last buffer switch.
    pub fn get_sample_position(&self, clock: &Clock) -> (position: (AsioU64, AsioU64))
        ensures
            position == (split(clock.sample_position), split(clock.system_time_ns)),
    {
        (AsioU64::from(clock.sample_position), AsioU64::from(clock.system_time_ns))
    }

    /// The host is done with its buffers.
    pub fn dispose_buffers(&mut self) -> (code: AsioError)
        requires
            old(self)@.wf(),
        ensures
            code == ASE_OK,
            final(self)@ == (DriverView { session: None, ..old(self)@ }),
            final(self)@.wf(),
    {
        self.session = None;
        ASE_OK
    }

    /// The control panel was opened, or not for the reason given.
    pub fn control_panel(&mut self, opened: Result<(), &str>) -> (code: AsioError)
        requires
            old(self)@.wf(),
        ensures
            match opened {
                Ok(()) => code == ASE_OK && final(self)@ == old(self)@,
                Err(text) => {
                    &&& code == ASE_NOT_PRESENT
                    &&& final(self)@ == old(self)@.failed(
                        "opening the control panel failed: "@ + text@,
                    )
                },
            },
            final(self)@.wf(),
    {
        match opened {
            Ok(()) => ASE_OK,
            Err(text) => {
                let mut message: String = string_of("opening the control panel failed: ");
                message.append(text);
                self.fail(ASE_NOT_PRESENT, message)
            },
        }
    }

    pub fn future(&self, selector: i32) -> (code: AsioError)
        ensures
            code == (if selector == K_ASIO_CAN_TIME_INFO {
                ASE_SUCCESS
            } else {
                ASE_INVALID_PARAMETER
            }),
    {
        if selector == K_ASIO_CAN_TIME_INFO {
            ASE_SUCCESS
        } else {
            ASE_INVALID_PARAMETER
        }
    }

    /// Outputs need not be announced.
    pub fn output_ready(&self) -> (code: AsioError)
        ensures
            code == ASE_NOT_PRESENT,
    {
        ASE_NOT_PRESENT
    }

    /// Describes the channel that `info` names.
    pub fn get_channel_info(&self, info: &mut AsioChannelInfo) -> (code: AsioError)
        requires
            self@.wf(),
        ensures
            ({
                let input = old(info).is_input != 0;
                let channel = old(info).channel as int;
                if 0 <= channel < (if input {
                    2int
                } else {
                    4
                }) {
                    &&& code == ASE_OK
                    &&& final(info).channel == old(info).channel
                    &&& final(info).is_input == old(info).is_input
                    &&& final(info).is_active == (if self@.is_active(input, channel) {
                        1int
                    } else {
                        0
                    })
                    &&& final(info).channel_group == 0
                    &&& final(info).sample_type == ASIO_ST_INT32_LSB
                    &&& final(info).name@ == c_string(
                        old(info).name@,
                        encode_utf8(channel_name(input, channel)),
                    )
                } else {
                    code == ASE_INVALID_PARAMETER && *final(info) == *old(info)
                }
            }),
    {
        let input = info.is_input != 0;
        let count: i32 = if input {
            INPUTS as i32
        } else {
            OUTPUTS as i32
        };
        if info.channel < 0 || info.channel >= count {
            return ASE_INVALID_PARAMETER;
        }
        let channel: usize = info.channel as usize;
        let active = match self.session {
            Some(session) => if input {
                session.active_inputs[channel]
            } else {
                session.active_outputs[channel]
            },
            None => false,
        };
        info.is_active = if active {
            1
        } else {
            0
        };
        info.channel_group = 0;
        info.sample_type = ASIO_ST_INT32_LSB;
        let mut name: String = string_of(
            if input {
                "In "
            } else {
                "Out "
            },
        );
        push_number(&mut name, channel as u64 + 1);
        write_c_string(&mut info.name, name.as_str());
        ASE_OK
    }

    /// Makes the buffers that a host asks for: `None` where it gave no list,
    /// else the `channels` channels of its list. `callbacks` tells whether it
    /// gave callbacks. [`Driver::session_opened`] follows once the streams are
    /// open.
    pub fn create_buffers(
        &mut self,
        infos: Option<&[AsioBufferInfo]>,
        callbacks: bool,
        channels: i32,
        buffer_size: i32,
    ) -> (host: Result<Host, AsioError>)
        requires
            old(self)@.wf(),
            infos matches Some(infos) ==> channels > 0 ==> infos.len() == channels,
        ensures
            ({
                let listed = match infos {
                    Some(infos) => Some(infos@),
                    None => None,
                };
                match old(self)@.buffer_fault(listed, callbacks, channels as int, buffer_size as int) {
                    Some(fault) => {
                        &&& host matches Err(code) && code == DriverView::fault_code(fault)
                        &&& final(self)@ == old(self)@.failed(
                            old(self)@.fault_message(fault, buffer_size as int),
                        )
                    },
                    None => {
                        &&& host matches Ok(host) && host@ == host_spec(
                            infos->0@,
                            buffer_size as int,
                            old(self)@.rate,
                        ) && host@.wf()
                        &&& final(self)@ == old(self)@
                    },
                }
            }),
            final(self)@.wf(),
    {
        if self.session.is_some() {
            return Err(self.fail(ASE_INVALID_MODE, string_of("buffers already exist")));
        }
        if !self.endpoints {
            return Err(self.fail(ASE_NOT_PRESENT, string_of("driver not initialized")));
        }
        let min: i32 = min_buffer_frames(self.rate) as i32;
        let max: i32 = 8 * min;
        let listed: Option<&[AsioBufferInfo]> = if !callbacks || channels <= 0 || buffer_size < min
            || buffer_size > max {
            None
        } else {
            infos
        };
        let list: &[AsioBufferInfo] = match listed {
            Some(list) => list,
            None => {
                let mut message: String = string_of("buffer size ");
                push_signed(&mut message, buffer_size as i64);
                message.append(" outside ");
                push_signed(&mut message, min as i64);
                message.append("..=");
                push_signed(&mut message, max as i64);
                return Err(self.fail(ASE_INVALID_PARAMETER, message));
            },
        };
        let frames: usize = buffer_size as usize;
        let mut i: usize = 0;
        while i < list.len()
            invariant
                i <= list.len(),
                infos matches Some(given) && given@ == list@,
                self@ == old(self)@,
                old(self)@.wf(),
                first_unknown(list@, 0) == first_unknown(list@, i as int),
                forall|k: int| 0 <= k < i ==> is_channel(#[trigger] list@[k]),
                old(self)@.buffer_fault(
                    Some(list@),
                    callbacks,
                    channels as int,
                    buffer_size as int,
                ) == (match first_unknown(list@, 0) {
                    Some(channel) => Some(BufferFault::Channel(channel)),
                    None => None,
                }),
            decreases list.len() - i,
        {
            let info: AsioBufferInfo = list[i];
            let limit: i32 = if info.is_input != 0 {
                INPUTS as i32
            } else {
                OUTPUTS as i32
            };
            if info.channel_num < 0 || info.channel_num >= limit {
                let mut message: String = string_of("no channel ");
                push_signed(&mut message, info.channel_num as i64);
                return Err(self.fail(ASE_INVALID_PARAMETER, message));
            }
            i = i + 1;
        }
        Ok(make_host(list, frames, self.rate))
    }

    /// The streams for the buffers of `host` were opened, or not.
    pub fn session_opened(&mut self, host: &Host, opened: Result<(), OpenFailure>) -> (code: AsioError)
        requires
            old(self)@.wf(),
            host@.wf(),
            host@.frames <= 0x80_0000,
        ensures
            match opened {
                Ok(()) => {
                    &&& code == ASE_OK
                    &&& final(self)@ == (DriverView {
                        session: Some(
                            SessionView {
                                frames: host@.frames,
                                inputs: Seq::new(2, |c: int| host@.inputs[c] is Some),
                                outputs: Seq::new(4, |c: int| host@.outputs[c] is Some),
                                running: false,
                            },
                        ),
                        ..old(self)@
                    })
                },
                Err(failure) => {
                    let rate = decimal_nat(old(self)@.rate as int);
                    if failure.code == AUDCLNT_E_UNSUPPORTED_FORMAT {
                        &&& code == ASE_NO_CLOCK
                        &&& final(self)@ == old(self)@.failed(
                            "another application is using the device at a rate other than "@ + rate
                                + " Hz"@,
                        )
                    } else {
                        &&& code == ASE_HW_MALFUNCTION
                        &&& final(self)@ == old(self)@.failed(
                            "opening the device at "@ + rate + " Hz failed: "@ + failure.text@,
                        )
                    }
                },
            },
            final(self)@.wf(),
    {
        match opened {
            Ok(()) => {
                let inputs: [bool; INPUTS] = [host.inputs[0].is_some(), host.inputs[1].is_some()];
                let outputs: [bool; OUTPUTS] = [
                    host.outputs[0].is_some(),
                    host.outputs[1].is_some(),
                    host.outputs[2].is_some(),
                    host.outputs[3].is_some(),
                ];
                assert(inputs@ =~= Seq::new(2, |c: int| host@.inputs[c] is Some));
                assert(outputs@ =~= Seq::new(4, |c: int| host@.outputs[c] is Some));
                self.session = Some(
                    Session {
                        buffer_frames: host.buffer_frames,
                        active_inputs: inputs,
                        active_outputs: outputs,
                        running: false,
                    },
                );
                ASE_OK
            },
            Err(failure) => {
                // The device has one clock, which another stream may hold at another rate.
                if failure.code == AUDCLNT_E_UNSUPPORTED_FORMAT {
                    let mut message: String = string_of(
                        "another application is using the device at a rate other than ",
                    );
                    push_number(&mut message, self.rate as u64);
                    message.append(" Hz");
                    self.fail(ASE_NO_CLOCK, message)
                } else {
                    let mut message: String = string_of("opening the device at ");
                    push_number(&mut message, self.rate as u64);
                    message.append(" Hz failed: ");
                    message.append(failure.text);
                    self.fail(ASE_HW_MALFUNCTION, message)
                }
            },
        }
    }
}

impl DriverView {
    /// Whether a channel has a buffer.
    pub open spec fn is_active(self, input: bool, channel: int) -> bool {
        self.session matches Some(session) && if input {
            session.inputs[channel]
        } else {
            session.outputs[channel]
        }
    }
}

/// "In 1", "Out 4" and so on.
pub open spec fn channel_name(input: bool, channel: int) -> Seq<char> {
    (if input {
        "In "@
    } else {
        "Out "@
    }) + decimal_nat(channel + 1)
}

impl Host {
    /// Takes the host's answer to whether it wants time information.
    pub fn set_time_info(&mut self, reply: i32)
        ensures
            final(self)@ == (HostView { time_info: reply == 1, ..old(self)@ }),
    {
        self.time_info = reply == 1;
    }
}

/// A silent double buffer.
fn silent_buffer(frames: usize) -> (buffer: Vec<i32>)
    requires
        2 * frames <= usize::MAX,
    ensures
        buffer@ == Seq::new((2 * frames) as nat, |k: int| 0i32),
{
    let mut buffer: Vec<i32> = Vec::new();
    for i in 0..2 * frames
        invariant
            buffer@ =~= Seq::new(i as nat, |k: int| 0i32),
    {
        buffer.push(0);
    }
    buffer
}

proof fn lemma_buffer_of(infos: Seq<AsioBufferInfo>, input: bool, channel: int)
    requires
        infos.len() <= usize::MAX,
    ensures
        buffer_of(infos, input, channel) matches Some(index) ==> index < infos.len(),
    decreases infos.len(),
{
    if infos.len() > 0 {
        lemma_buffer_of(infos.drop_last(), input, channel);
    }
}

/// Makes the buffers of a list whose channels all exist.
fn make_host(infos: &[AsioBufferInfo], frames: usize, rate: u32) -> (host: Host)
    requires
        0 < frames <= 0x80_0000,
        forall|k: int| 0 <= k < infos.len() ==> is_channel(#[trigger] infos@[k]),
    ensures
        host@ == host_spec(infos@, frames as int, rate),
        host@.wf(),
{
    let mut inputs: [Option<usize>; INPUTS] = [None, None];
    let mut outputs: [Option<usize>; OUTPUTS] = [None, None, None, None];
    let mut buffers: Vec<Vec<i32>> = Vec::new();
    let mut i: usize = 0;
    while i < infos.len()
        invariant
            i <= infos.len(),
            frames <= 0x80_0000,
            buffers.len() == i,
            forall|k: int| 0 <= k < infos.len() ==> is_channel(#[trigger] infos@[k]),
            forall|k: int|
                0 <= k < i ==> (#[trigger] buffers@[k])@ == Seq::new((2 * frames) as nat, |n: int| 0i32),
            forall|c: int|
                0 <= c < 2 ==> #[trigger] inputs@[c] == buffer_of(infos@.subrange(0, i as int), true, c),
            forall|c: int|
                0 <= c < 4 ==> #[trigger] outputs@[c] == buffer_of(infos@.subrange(0, i as int), false, c),
        decreases infos.len() - i,
    {
        proof {
            assert(infos@.subrange(0, i + 1).drop_last() =~= infos@.subrange(0, i as int));
            assert(is_channel(infos@[i as int]));
        }
        let info: AsioBufferInfo = infos[i];
        if info.is_input != 0 {
            inputs[info.channel_num as usize] = Some(i);
        } else {
            outputs[info.channel_num as usize] = Some(i);
        }
        buffers.push(silent_buffer(frames));
        i = i + 1;
    }
    let host = Host { time_info: false, buffer_frames: frames, rate, inputs, outputs, buffers };
    proof {
        assert(infos@.subrange(0, i as int) =~= infos@);
        let expected = host_spec(infos@, frames as int, rate);
        assert(host@.inputs =~= expected.inputs);
        assert(host@.outputs =~= expected.outputs);
        assert(host@.buffers =~= expected.buffers);
        assert(infos.len() <= usize::MAX);
        assert forall|c: int| 0 <= c < INPUTS implies host@.has_buffer(#[trigger] host@.inputs[c]) by {
            lemma_buffer_of(infos@, true, c);
        }
        assert forall|c: int| 0 <= c < OUTPUTS implies host@.has_buffer(#[trigger] host@.outputs[c]) by {
            lemma_buffer_of(infos@, false, c);
        }
    }
    host
}

/// How an object answers being asked for an interface: hosts ask for the
/// driver's class as the interface. `None` where a pointer is missing.
pub fn query_interface(iid: Option<u128>) -> (result: HResult)
    ensures
        result == match iid {
            None => E_POINTER,
            Some(iid) => if iid == IID_IUNKNOWN || iid == CLSID {
                S_OK
            } else {
                E_NOINTERFACE
            },
        },
{
    match iid {
        None => E_POINTER,
        Some(iid) => if iid == IID_IUNKNOWN || iid == CLSID {
            S_OK
        } else {
            E_NOINTERFACE
        },
    }
}

/// Counts the references to an object.
#[derive(Clone, Copy, Debug, PartialEq, Eq, Structural)]
pub struct References {
    pub count: u32,
}

impl References {
    /// An object is made with one reference.
    pub fn new() -> (references: References)
        ensures
            references.count == 1,
    {
        References { count: 1 }
    }

    pub fn add_ref(&mut self) -> (count: u32)
        requires
            old(self).count < u32::MAX,
        ensures
            count == old(self).count + 1,
            final(self).count == count,
    {
        self.count = self.count + 1;
        self.count
    }

    /// Gives a reference up; the object goes with the last one.
    pub fn release(&mut self) -> (left: u32)
        requires
            old(self).count > 0,
        ensures
            left == old(self).count - 1,
            final(self).count == left,
    {
        self.count = self.count - 1;
        self.count
    }
}

/// Every size between the smallest and the largest buffer is accepted, the
/// preferred one among them, for any list of channels that there are.
pub proof fn law_offered_sizes_are_accepted(
    driver: DriverView,
    infos: Seq<AsioBufferInfo>,
    size: int,
)
    requires
        driver.wf(),
        driver.session is None,
        driver.endpoints,
        infos.len() > 0,
        forall|k: int| 0 <= k < infos.len() ==> is_channel(#[trigger] infos[k]),
        driver.min_frames() <= size <= 8 * driver.min_frames() || size
            == driver.settings.buffer_frames_spec(driver.rate as int),
    ensures
        driver.buffer_fault(Some(infos), true, infos.len() as int, size) is None,
{
    let multiple = driver.settings.buffer_multiple as int;
    let frames = driver.min_frames();
    crate::settings::law_next_power_is_least(
        crate::settings::transfer_frames(driver.rate as int),
    );
    assert(frames <= frames * multiple <= 8 * frames) by (nonlinear_arith)
        requires
            1 <= multiple <= 8,
            frames >= 0,
    ;
    lemma_no_unknown(infos, 0);
}

proof fn lemma_no_unknown(infos: Seq<AsioBufferInfo>, from: int)
    requires
        0 <= from,
        forall|k: int| 0 <= k < infos.len() ==> is_channel(#[trigger] infos[k]),
    ensures
        first_unknown(infos, from) is None,
    decreases infos.len() - from,
{
    if from < infos.len() {
        lemma_no_unknown(infos, from + 1);
    }
}

/// Each channel of a list has a buffer of its own: no buffer is that of two
/// channels.
pub proof fn law_channels_have_their_own_buffers(
    infos: Seq<AsioBufferInfo>,
    a_input: bool,
    a: int,
    b_input: bool,
    b: int,
)
    requires
        infos.len() <= usize::MAX,
        buffer_of(infos, a_input, a) is Some,
        buffer_of(infos, a_input, a) == buffer_of(infos, b_input, b),
    ensures
        a_input == b_input,
        a == b,
    decreases infos.len(),
{
    if infos.len() > 0 {
        lemma_buffer_of(infos.drop_last(), a_input, a);
        lemma_buffer_of(infos.drop_last(), b_input, b);
        if buffer_of(infos, a_input, a) != Some((infos.len() - 1) as usize) {
            law_channels_have_their_own_buffers(infos.drop_last(), a_input, a, b_input, b);
        }
    }
}

/// The buffer of a channel is the one of the last entry of the host's list that
/// names it, and a channel that no entry names has none.
pub proof fn law_last_entries_give_the_buffers(
    infos: Seq<AsioBufferInfo>,
    input: bool,
    channel: int,
    k: int,
)
    requires
        infos.len() <= usize::MAX,
        0 <= k < infos.len(),
        (infos[k].is_input != 0) == input,
        infos[k].channel_num == channel,
    ensures
        buffer_of(infos, input, channel) matches Some(index) && {
            &&& k <= index < infos.len()
            &&& (infos[index as int].is_input != 0) == input
            &&& infos[index as int].channel_num == channel
        },
    decreases infos.len(),
{
    let before = infos.drop_last();
    if k < before.len() {
        assert(before[k] == infos[k]);
        law_last_entries_give_the_buffers(before, input, channel, k);
    }
}

/// A channel that no entry of the host's list names has no buffer.
pub proof fn law_channels_not_asked_for_have_no_buffer(
    infos: Seq<AsioBufferInfo>,
    input: bool,
    channel: int,
)
    requires
        infos.len() <= usize::MAX,
        forall|k: int|
            0 <= k < infos.len() ==> (#[trigger] infos[k]).channel_num != channel || (infos[k].is_input
                != 0) != input,
    ensures
        buffer_of(infos, input, channel) is None,
    decreases infos.len(),
{
    if infos.len() > 0 {
        let before = infos.drop_last();
        assert forall|k: int| 0 <= k < before.len() implies (#[trigger] before[k]).channel_num
            != channel || (before[k].is_input != 0) != input by {
            assert(before[k] == infos[k]);
        }
        assert(infos[infos.len() - 1].channel_num != channel || (infos[infos.len() - 1].is_input
            != 0) != input);
        law_channels_not_asked_for_have_no_buffer(before, input, channel);
    }
}

/// Every entry of the host's list gets a silent buffer of two halves, and each
/// channel the buffer of its entry.
pub proof fn law_buffers_begin_silent(
    infos: Seq<AsioBufferInfo>,
    frames: int,
    rate: u32,
    entry: int,
    i: int,
)
    requires
        frames > 0,
        0 <= entry < infos.len(),
        0 <= i < 2 * frames,
    ensures
        ({
            let host = host_spec(infos, frames, rate);
            &&& host.buffers.len() == infos.len()
            &&& host.buffers[entry].len() == 2 * frames
            &&& host.buffers[entry][i] == 0
            &&& host.frames == frames
            &&& host.rate == rate
            &&& !host.time_info
            &&& host.inputs.len() == 2
            &&& host.outputs.len() == 4
            &&& host.inputs[0] == buffer_of(infos, true, 0)
            &&& host.inputs[1] == buffer_of(infos, true, 1)
            &&& host.outputs[0] == buffer_of(infos, false, 0)
            &&& host.outputs[1] == buffer_of(infos, false, 1)
            &&& host.outputs[2] == buffer_of(infos, false, 2)
            &&& host.outputs[3] == buffer_of(infos, false, 3)
        }),
{
}

/// There are two inputs and four outputs, counted from zero.
pub proof fn law_channels_are_counted_from_zero(info: AsioBufferInfo)
    ensures
        info.is_input != 0 ==> (is_channel(info) <==> info.channel_num == 0 || info.channel_num
            == 1),
        info.is_input == 0 ==> (is_channel(info) <==> info.channel_num == 0 || info.channel_num == 1
            || info.channel_num == 2 || info.channel_num == 3),
{
}

/// The unknown channel that is reported is the first one of the list, and there
/// is none where all are known.
pub proof fn law_first_unknown_channel_is_reported(infos: Seq<AsioBufferInfo>, from: int, at: int)
    requires
        0 <= from <= at <= infos.len(),
        forall|k: int| from <= k < at ==> is_channel(#[trigger] infos[k]),
    ensures
        at < infos.len() && !is_channel(infos[at]) ==> first_unknown(infos, from) == Some(
            infos[at].channel_num,
        ),
        at == infos.len() ==> first_unknown(infos, from) is None,
    decreases infos.len() - from,
{
    if from < at {
        assert(is_channel(infos[from]));
        law_first_unknown_channel_is_reported(infos, from + 1, at);
    }
}

/// A request for buffers is refused while there are buffers, before the device
/// was found, without a list, callbacks or channels, for a size below the
/// smallest or above eight times it, and for a channel that there is not; each
/// with its code, and otherwise it is granted.
pub proof fn law_requests_for_buffers_are_checked(
    driver: DriverView,
    infos: Seq<AsioBufferInfo>,
    callbacks: bool,
    channels: int,
    size: int,
)
    ensures
        ({
            let fault = driver.buffer_fault(Some(infos), callbacks, channels, size);
            let fits = callbacks && channels > 0 && driver.min_frames() <= size <= 8
                * driver.min_frames();
            &&& driver.session is Some ==> fault == Some(BufferFault::AlreadyThere)
            &&& driver.session is None && !driver.endpoints ==> fault == Some(
                BufferFault::NotInitialized,
            )
            &&& driver.session is None && driver.endpoints && !fits ==> fault == Some(
                BufferFault::Size,
            )
            &&& driver.session is None && driver.endpoints ==> driver.buffer_fault(
                None,
                callbacks,
                channels,
                size,
            ) == Some(BufferFault::Size)
            &&& driver.session is None && driver.endpoints && fits && first_unknown(infos, 0) is None
                ==> fault is None
            &&& driver.session is None && driver.endpoints && fits ==> (first_unknown(
                infos,
                0,
            ) matches Some(channel) ==> fault == Some(BufferFault::Channel(channel)))
            &&& DriverView::fault_code(BufferFault::AlreadyThere) == -997
            &&& DriverView::fault_code(BufferFault::NotInitialized) == -1000
            &&& DriverView::fault_code(BufferFault::Size) == -998
            &&& DriverView::fault_code(BufferFault::Channel(0)) == -998
        }),
{
}

/// The buffer size in use is that of the session, and without one the smallest
/// at the rate in use.
pub proof fn law_buffer_size_is_that_of_the_session(driver: DriverView)
    ensures
        driver.session matches Some(session) ==> driver.current_frames() == session.frames,
        driver.session is None ==> driver.current_frames() == driver.min_frames(),
        driver.min_frames() == min_buffer_frames_spec(driver.rate as int),
{
}

/// A channel is active where the session has a buffer for it.
pub proof fn law_active_channels_have_buffers(driver: DriverView, channel: int)
    ensures
        driver.session is None ==> !driver.is_active(true, channel) && !driver.is_active(
            false,
            channel,
        ),
        driver.session matches Some(session) ==> {
            &&& driver.is_active(true, channel) == session.inputs[channel]
            &&& driver.is_active(false, channel) == session.outputs[channel]
        },
{
}

/// Channels are named by their direction and counted from one.
pub proof fn law_channel_names_count_from_one(channel: int)
    requires
        0 <= channel < 9,
    ensures
        channel_name(true, channel) == seq!['I', 'n', ' ', (49 + channel) as char],
        channel_name(false, channel) == seq!['O', 'u', 't', ' ', (49 + channel) as char],
{
    reveal_strlit("In ");
    reveal_strlit("Out ");
    law_digits_are_by_tens(channel + 1);
    assert(decimal_nat(channel + 1) =~= seq![(49 + channel) as char]);
    assert(channel_name(true, channel) =~= seq!['I', 'n', ' ', (49 + channel) as char]);
    assert(channel_name(false, channel) =~= seq!['O', 'u', 't', ' ', (49 + channel) as char]);
}

/// Input is late by a buffer and the four milliseconds of a transfer on the bus;
/// output by one buffer more.
pub proof fn law_latencies_are_buffers_and_a_transfer(driver: &Driver, latencies: (i32, i32))
    requires
        driver@.wf(),
        call_ensures(Driver::get_latencies, (driver,), latencies),
    ensures
        latencies.1 - latencies.0 == driver@.current_frames(),
        1000 * (latencies.0 - driver@.current_frames()) <= 4 * driver@.rate,
        4 * driver@.rate < 1000 * (latencies.0 - driver@.current_frames() + 1),
{
}

/// A host may choose from the smallest buffer to eight times it, is offered the
/// size that was set, and can only double.
pub proof fn law_buffer_sizes_are_offered(driver: &Driver, sizes: (i32, i32, i32, i32))
    requires
        driver@.wf(),
        call_ensures(Driver::get_buffer_size, (driver,), sizes),
    ensures
        sizes.0 == min_buffer_frames_spec(driver@.rate as int),
        sizes.1 == 8 * sizes.0,
        sizes.2 == sizes.0 * driver@.settings.buffer_multiple,
        sizes.3 == -1,
{
}

/// The five rates can be had, and no other; the one clock is the first, and the
/// only thing that a host may ask for besides is time information.
pub proof fn law_rates_and_clocks(
    driver: &Driver,
    hz: u32,
    rate: AsioError,
    reference: i32,
    clock: AsioError,
    selector: i32,
    answer: AsioError,
)
    requires
        call_ensures(Driver::can_sample_rate, (driver, Some(hz)), rate),
        call_ensures(Driver::set_clock_source, (driver, reference), clock),
        call_ensures(Driver::future, (driver, selector), answer),
    ensures
        rate == 0 <==> hz == 44_100 || hz == 48_000 || hz == 88_200 || hz == 96_000 || hz
            == 192_000,
        rate != 0 ==> rate == -995,
        clock == 0 <==> reference == 0,
        clock != 0 ==> clock == -998,
        answer == 0x3f48_47a0 <==> selector == 0x2311_1961,
        answer != 0x3f48_47a0 ==> answer == -998,
{
}

/// A failure is kept as text and changes nothing else; what is said of a request
/// for buffers names what is wrong with it.
pub proof fn law_failures_are_kept_as_text(
    driver: DriverView,
    message: Seq<char>,
    size: int,
    channel: i32,
)
    ensures
        driver.failed(message).error == message,
        driver.failed(message).session == driver.session,
        driver.failed(message).rate == driver.rate,
        driver.failed(message).settings == driver.settings,
        driver.failed(message).endpoints == driver.endpoints,
        driver.failed(message).com == driver.com,
        driver.fault_message(BufferFault::AlreadyThere, size) == "buffers already exist"@,
        driver.fault_message(BufferFault::NotInitialized, size) == "driver not initialized"@,
        driver.fault_message(BufferFault::Channel(channel), size) == "no channel "@ + decimal(
            channel as int,
        ),
        driver.fault_message(BufferFault::Size, size) == "buffer size "@ + decimal(size)
            + " outside "@ + decimal(driver.min_frames()) + "..="@ + decimal(
            8 * driver.min_frames(),
        ),
{
}

/// Streams are started once for a session and stopped where they run; a session
/// begins stopped, with the buffers of its host.
pub proof fn law_sessions_start_and_stop(text: &str, host: &Host, code: AsioError, step: Step)
    ensures
        forall|driver: &mut Driver| #[trigger]
            call_ensures(Driver::start, (driver,), step) ==> {
                let before = (*driver)@;
                &&& before.session is None ==> step == Step::Done(ASE_INVALID_MODE)
                &&& before.session matches Some(session) ==> (step == Step::Streams
                    <==> !session.running) && (*final(driver))@ == before
            },
        forall|driver: &mut Driver| #[trigger]
            call_ensures(Driver::started, (driver, Ok(())), code) && (*driver)@.session is Some ==> {
                &&& code == 0
                &&& (*final(driver))@.session matches Some(session) && session.running
                &&& (*final(driver))@.rate == (*driver)@.rate
            },
        forall|driver: &mut Driver| #[trigger]
            call_ensures(Driver::started, (driver, Err(text)), code) ==> {
                &&& code == -999
                &&& (*final(driver))@.session == (*driver)@.session
            },
        forall|driver: &mut Driver| #[trigger]
            call_ensures(Driver::stop, (driver,), step) ==> {
                let before = (*driver)@;
                let after = (*final(driver))@;
                &&& step == Step::Streams <==> before.session is Some && (
                before.session->0).running
                &&& after.session matches Some(session) ==> !session.running
                &&& after.session is Some <==> before.session is Some
            },
        forall|driver: &mut Driver| #[trigger]
            call_ensures(Driver::session_opened, (driver, host, Ok(())), code) ==> {
                &&& code == 0
                &&& (*final(driver))@.session matches Some(session) && session.frames
                    == host@.frames && !session.running && (session.inputs[0] <==> host@.inputs[0]
                    is Some) && (session.inputs[1] <==> host@.inputs[1] is Some) && (
                session.outputs[0] <==> host@.outputs[0] is Some) && (session.outputs[3]
                    <==> host@.outputs[3] is Some)
            },
        forall|driver: &mut Driver| #[trigger]
            call_ensures(Driver::dispose_buffers, (driver,), code) ==> {
                &&& code == 0
                &&& (*final(driver))@.session is None
                &&& (*final(driver))@.rate == (*driver)@.rate
            },
{
}

/// Only one of the five rates replaces the rate, and a host that has buffers is
/// asked to make them anew where the rate, or the multiple that was set, changes.
pub proof fn law_hosts_are_asked_to_start_anew(
    hz: u32,
    text: &str,
    answer: (AsioError, bool),
    settings: Settings,
    reset: bool,
)
    ensures
        forall|driver: &mut Driver| #[trigger]
            call_ensures(Driver::set_sample_rate, (driver, Some(hz), text), answer) ==> {
                let before = (*driver)@;
                let after = (*final(driver))@;
                let offered = hz == 44_100 || hz == 48_000 || hz == 88_200 || hz == 96_000 || hz
                    == 192_000;
                &&& offered ==> answer.0 == 0 && after.rate == hz && after.error == before.error
                &&& offered ==> (answer.1 <==> before.session is Some && before.rate != hz)
                &&& !offered ==> answer.0 == -995 && after.rate == before.rate && !answer.1
                &&& after.session == before.session
            },
        forall|driver: &mut Driver| #[trigger]
            call_ensures(Driver::settings_changed, (driver, settings), reset) ==> {
                let before = (*driver)@;
                let after = (*final(driver))@;
                &&& after.settings == settings
                &&& after.rate == before.rate
                &&& after.session == before.session
                &&& reset <==> before.session is Some && before.settings.buffer_multiple
                    != settings.buffer_multiple
            },
{
}

/// References are counted one by one.
pub proof fn law_references_are_counted(count: u32)
    ensures
        forall|references: &mut References| #[trigger]
            call_ensures(References::add_ref, (references,), count) ==> count
                == references.count + 1 && (*final(references)).count == count,
        forall|references: &mut References| #[trigger]
            call_ensures(References::release, (references,), count) ==> count + 1
                == references.count && (*final(references)).count == count,
{
}

} // verus!
