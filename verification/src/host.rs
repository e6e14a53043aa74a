//! A minimal ASIO host: what its arguments ask for, the order in which it
//! calls the driver, and what it counts while buffers switch.

use vstd::prelude::*;
use vstd::string::StrSliceExecFns;

use crate::abi::{
    AsioBufferInfo, AsioError, ASE_OK, K_ASIO_ENGINE_VERSION, K_ASIO_RESET_REQUEST,
    K_ASIO_SELECTOR_SUPPORTED, K_ASIO_SUPPORTS_TIME_INFO,
};
use crate::driver::is_channel;
use crate::text::{
    begins_with, chars_begin, chars_of, decimal, digits_value, law_numbers_are_digits,
    parse_unsigned, parse_unsigned_spec, push_signed, same_text, string_of,
};

verus! {

pub const USAGE: &'static str =
    "usage: ak1-asio-host <rate-hz> <buffer-frames|pref> <seconds> [channels, e.g. in1,out3,out4] | panel";

/// What the host is to do.
#[derive(Clone, Copy, Debug, PartialEq, Eq, Structural)]
pub enum Mode {
    /// Open the driver's control panel.
    Panel,
    /// Stream on all channels.
    Stream,
    /// Stream on the channels that the last argument lists.
    StreamChannels,
}

/// What arguments ask for; `None` where they are wrong.
pub open spec fn mode_spec(args: Seq<String>) -> Option<Mode> {
    if args.len() == 1 && args[0]@ == "panel"@ {
        Some(Mode::Panel)
    } else if args.len() == 3 {
        Some(Mode::Stream)
    } else if args.len() == 4 {
        Some(Mode::StreamChannels)
    } else {
        None
    }
}

/// What the arguments ask for.
pub fn mode(args: &[String]) -> (mode: Result<Mode, &'static str>)
    ensures
        match mode {
            Ok(mode) => mode_spec(args@) == Some(mode),
            Err(usage) => mode_spec(args@) is None && usage@ == USAGE@,
        },
{
    if args.len() == 1 && same_text(args[0].as_str(), "panel") {
        Ok(Mode::Panel)
    } else if args.len() == 3 {
        Ok(Mode::Stream)
    } else if args.len() == 4 {
        Ok(Mode::StreamChannels)
    } else {
        Err(USAGE)
    }
}

/// The number that `text` stands for, if it is a decimal number that fits in
/// 32 bits.
pub open spec fn parse_i32_spec(text: Seq<char>) -> Option<int> {
    if text.len() > 0 && text[0] == '-' {
        let digits = text.subrange(1, text.len() as int);
        if digits.len() > 0 && digits[0] == '+' {
            None
        } else {
            match parse_unsigned_spec(digits, 0x8000_0000) {
                Some(value) => Some(-value),
                None => None,
            }
        }
    } else {
        parse_unsigned_spec(text, 0x7fff_ffff)
    }
}

fn parse_i32(text: &str) -> (value: Option<i32>)
    ensures
        match value {
            Some(value) => parse_i32_spec(text@) == Some(value as int),
            None => parse_i32_spec(text@) is None,
        },
{
    let chars: Vec<char> = chars_of(text);
    if chars.len() > 0 && chars[0] == '-' {
        let mut digits: Vec<char> = Vec::new();
        let mut i: usize = 1;
        while i < chars.len()
            invariant
                1 <= i <= chars.len(),
                digits@ =~= chars@.subrange(1, i as int),
            decreases chars.len() - i,
        {
            digits.push(chars[i]);
            i = i + 1;
        }
        if digits.len() > 0 && digits[0] == '+' {
            return None;
        }
        match parse_unsigned(digits.as_slice(), 0x8000_0000) {
            Some(value) => Some((-(value as i64)) as i32),
            None => None,
        }
    } else {
        match parse_unsigned(chars.as_slice(), 0x7fff_ffff) {
            Some(value) => Some(value as i32),
            None => None,
        }
    }
}

/// The buffer size that `text` asks for, where `preferred` is the driver's:
/// `None` where it is not a number.
pub fn buffer_frames(text: &str, preferred: i32) -> (frames: Option<i32>)
    ensures
        if text@ == "pref"@ {
            frames == Some(preferred)
        } else {
            match frames {
                Some(frames) => parse_i32_spec(text@) == Some(frames as int),
                None => parse_i32_spec(text@) is None,
            }
        },
{
    if same_text(text, "pref") {
        Some(preferred)
    } else {
        parse_i32(text)
    }
}

/// The channel that a name such as "in1" or "out4" stands for.
pub open spec fn channel_spec(name: Seq<char>) -> Option<AsioBufferInfo> {
    if begins_with(name, "in"@) {
        numbered(1, name.subrange(2, name.len() as int), 2)
    } else if begins_with(name, "out"@) {
        numbered(0, name.subrange(3, name.len() as int), 4)
    } else {
        None
    }
}

/// Channel `number`, a single digit that counts from 1, of `count`.
pub open spec fn numbered(is_input: i32, number: Seq<char>, count: int) -> Option<AsioBufferInfo> {
    if number.len() == 1 && 1 <= number[0] as int - '0' as int <= count {
        Some(AsioBufferInfo { is_input, channel_num: (number[0] as int - '1' as int) as i32 })
    } else {
        None
    }
}

/// What to say of a name that is no channel's.
pub open spec fn unknown_channel(name: Seq<char>) -> Seq<char> {
    "unknown channel "@ + name
}

/// `in1`..`in2` or `out1`..`out4`.
pub fn parse_channel(name: &str) -> (channel: Result<AsioBufferInfo, String>)
    ensures
        match channel {
            Ok(info) => channel_spec(name@) == Some(info),
            Err(text) => channel_spec(name@) is None && text@ == unknown_channel(name@),
        },
{
    proof {
        reveal_strlit("in");
        reveal_strlit("out");
    }
    let chars: Vec<char> = chars_of(name);
    let input: Vec<char> = chars_of("in");
    let output: Vec<char> = chars_of("out");
    if chars_begin(chars.as_slice(), input.as_slice()) {
        if chars.len() == 3 && '1' <= chars[2] && chars[2] <= '2' {
            return Ok(AsioBufferInfo { is_input: 1, channel_num: (chars[2] as u32 - '1' as u32) as i32 });
        }
    } else if chars_begin(chars.as_slice(), output.as_slice()) {
        if chars.len() == 4 && '1' <= chars[3] && chars[3] <= '4' {
            return Ok(AsioBufferInfo { is_input: 0, channel_num: (chars[3] as u32 - '1' as u32) as i32 });
        }
    }
    let mut text: String = string_of("unknown channel ");
    text.append(name);
    Err(text)
}

/// The parts of a text between commas.
pub open spec fn parts(text: Seq<char>) -> Seq<Seq<char>>
    decreases text.len(),
{
    if text.len() == 0 {
        seq![seq![]]
    } else {
        let before = parts(text.drop_last());
        if text.last() == ',' {
            before.push(seq![])
        } else {
            before.update(before.len() - 1, before.last().push(text.last()))
        }
    }
}

/// Splits a text at its commas.
fn split(text: &str) -> (pieces: Vec<&str>)
    ensures
        Seq::new(pieces@.len(), |i: int| pieces@[i]@) == parts(text@),
{
    let len: usize = text.unicode_len();
    let mut pieces: Vec<&str> = Vec::new();
    let mut start: usize = 0;
    let mut i: usize = 0;
    proof {
        assert(text@.subrange(0, 0) =~= Seq::<char>::empty());
        assert(Seq::new(pieces@.len(), |k: int| pieces@[k]@).push(text@.subrange(0, 0)) =~= parts(
            text@.subrange(0, 0),
        ));
    }
    while i < len
        invariant
            start <= i <= len,
            len == text@.len(),
            Seq::new(pieces@.len(), |k: int| pieces@[k]@).push(text@.subrange(start as int, i as int))
                == parts(text@.subrange(0, i as int)),
        decreases len - i,
    {
        let ghost piece = text@.subrange(start as int, i as int);
        let ghost before = Seq::new(pieces@.len(), |k: int| pieces@[k]@).push(piece);
        proof {
            assert(text@.subrange(0, i + 1).drop_last() =~= text@.subrange(0, i as int));
            assert(before.last() == piece);
        }
        if text.get_char(i) == ',' {
            pieces.push(text.substring_char(start, i));
            start = i + 1;
            assert(Seq::new(pieces@.len(), |k: int| pieces@[k]@) =~= before);
            assert(text@.subrange(start as int, i + 1) =~= seq![]);
        } else {
            assert(text@.subrange(start as int, i + 1) =~= piece.push(text@[i as int]));
            assert(Seq::new(pieces@.len(), |k: int| pieces@[k]@).push(
                text@.subrange(start as int, i + 1),
            ) =~= before.update(before.len() - 1, before.last().push(text@[i as int])));
        }
        i = i + 1;
    }
    assert(text@.subrange(0, i as int) =~= text@);
    let ghost before = Seq::new(pieces@.len(), |k: int| pieces@[k]@).push(
        text@.subrange(start as int, i as int),
    );
    pieces.push(text.substring_char(start, len));
    assert(Seq::new(pieces@.len(), |k: int| pieces@[k]@) =~= before);
    pieces
}

/// The first of `names` from `from` on that is no channel.
pub open spec fn first_unknown(names: Seq<Seq<char>>, from: int) -> Option<Seq<char>>
    decreases names.len() - from,
{
    if from < 0 || from >= names.len() {
        None
    } else if channel_spec(names[from]) is None {
        Some(names[from])
    } else {
        first_unknown(names, from + 1)
    }
}

/// The channels that a comma-separated list names; what to say of the first
/// name that is no channel's where there is one.
pub fn listed_channels(list: &str) -> (channels: Result<Vec<AsioBufferInfo>, String>)
    ensures
        match channels {
            Ok(channels) => {
                &&& first_unknown(parts(list@), 0) is None
                &&& channels@ == Seq::new(
                    parts(list@).len(),
                    |i: int| channel_spec(parts(list@)[i])->0,
                )
            },
            Err(text) => first_unknown(parts(list@), 0) matches Some(name) && text@
                == unknown_channel(name),
        },
{
    let names: Vec<&str> = split(list);
    let ghost all = parts(list@);
    let mut channels: Vec<AsioBufferInfo> = Vec::new();
    let mut i: usize = 0;
    while i < names.len()
        invariant
            i <= names.len(),
            all == parts(list@),
            Seq::new(names@.len(), |k: int| names@[k]@) == all,
            first_unknown(all, 0) == first_unknown(all, i as int),
            channels@ =~= Seq::new(i as nat, |k: int| channel_spec(all[k])->0),
        decreases names.len() - i,
    {
        assert(all[i as int] == names@[i as int]@);
        match parse_channel(names[i]) {
            Ok(channel) => {
                channels.push(channel);
            },
            Err(text) => {
                return Err(text);
            },
        }
        i = i + 1;
    }
    Ok(channels)
}

/// All channels, the inputs first.
pub fn all_channels() -> (channels: Vec<AsioBufferInfo>)
    ensures
        channels@ == Seq::new(
            6,
            |i: int|
                if i < 2 {
                    AsioBufferInfo { is_input: 1, channel_num: i as i32 }
                } else {
                    AsioBufferInfo { is_input: 0, channel_num: (i - 2) as i32 }
                },
        ),
{
    let mut channels: Vec<AsioBufferInfo> = Vec::new();
    let mut i: i32 = 0;
    while i < 6
        invariant
            0 <= i <= 6,
            channels@ =~= Seq::new(
                i as nat,
                |k: int|
                    if k < 2 {
                        AsioBufferInfo { is_input: 1, channel_num: k as i32 }
                    } else {
                        AsioBufferInfo { is_input: 0, channel_num: (k - 2) as i32 }
                    },
            ),
        decreases 6 - i,
    {
        if i < 2 {
            channels.push(AsioBufferInfo { is_input: 1, channel_num: i });
        } else {
            channels.push(AsioBufferInfo { is_input: 0, channel_num: i - 2 });
        }
        i = i + 1;
    }
    channels
}

/// Six names stand for channels, and no other does.
pub proof fn law_six_names_are_channels(name: Seq<char>)
    ensures
        channel_spec(name) == (if name == "in1"@ {
            Some(AsioBufferInfo { is_input: 1, channel_num: 0 })
        } else if name == "in2"@ {
            Some(AsioBufferInfo { is_input: 1, channel_num: 1 })
        } else if name == "out1"@ {
            Some(AsioBufferInfo { is_input: 0, channel_num: 0 })
        } else if name == "out2"@ {
            Some(AsioBufferInfo { is_input: 0, channel_num: 1 })
        } else if name == "out3"@ {
            Some(AsioBufferInfo { is_input: 0, channel_num: 2 })
        } else if name == "out4"@ {
            Some(AsioBufferInfo { is_input: 0, channel_num: 3 })
        } else {
            None
        }),
{
    reveal_strlit("in");
    reveal_strlit("out");
    reveal_strlit("in1");
    reveal_strlit("in2");
    reveal_strlit("out1");
    reveal_strlit("out2");
    reveal_strlit("out3");
    reveal_strlit("out4");
    if name.len() == 3 {
        assert(begins_with(name, "in"@) == (name[0] == 'i' && name[1] == 'n')) by {
            assert(name.subrange(0, 2)[0] == name[0] && name.subrange(0, 2)[1] == name[1]);
            if name[0] == 'i' && name[1] == 'n' {
                assert(name.subrange(0, 2) =~= "in"@);
            }
        }
        assert(name.subrange(2, 3)[0] == name[2]);
        assert(channel_spec(name) is Some ==> name =~= "in1"@ || name =~= "in2"@);
    } else if name.len() == 4 {
        assert(begins_with(name, "in"@) ==> name[0] == 'i') by {
            assert(name.subrange(0, 2)[0] == name[0]);
        }
        assert(begins_with(name, "out"@) == (name[0] == 'o' && name[1] == 'u' && name[2] == 't')) by {
            let start = name.subrange(0, 3);
            assert(start[0] == name[0] && start[1] == name[1] && start[2] == name[2]);
            if name[0] == 'o' && name[1] == 'u' && name[2] == 't' {
                assert(start =~= "out"@);
            }
        }
        assert(name.subrange(3, 4)[0] == name[3]);
        assert(channel_spec(name) is Some ==> name =~= "out1"@ || name =~= "out2"@ || name
            =~= "out3"@ || name =~= "out4"@);
    }
}

/// Every channel that a name stands for is one that the driver has.
pub proof fn law_named_channels_exist(name: Seq<char>)
    ensures
        channel_spec(name) matches Some(info) ==> is_channel(info),
{
}

/// The calls of a run, in order.
#[derive(Clone, Copy, Debug, PartialEq, Eq, Structural)]
pub enum Call {
    Init,
    GetChannels,
    CanSampleRate,
    SetSampleRate,
    GetBufferSize,
    CreateBuffers,
    GetLatencies,
    Start,
    Stop,
    GetSamplePosition,
    DisposeBuffers,
}

pub open spec fn call_after(call: Call) -> Option<Call> {
    match call {
        Call::Init => Some(Call::GetChannels),
        Call::GetChannels => Some(Call::CanSampleRate),
        Call::CanSampleRate => Some(Call::SetSampleRate),
        Call::SetSampleRate => Some(Call::GetBufferSize),
        Call::GetBufferSize => Some(Call::CreateBuffers),
        Call::CreateBuffers => Some(Call::GetLatencies),
        Call::GetLatencies => Some(Call::Start),
        Call::Start => Some(Call::Stop),
        Call::Stop => Some(Call::GetSamplePosition),
        Call::GetSamplePosition => Some(Call::DisposeBuffers),
        Call::DisposeBuffers => None,
    }
}

pub open spec fn call_name(call: Call) -> Seq<char> {
    match call {
        Call::Init => "init"@,
        Call::GetChannels => "getChannels"@,
        Call::CanSampleRate => "canSampleRate"@,
        Call::SetSampleRate => "setSampleRate"@,
        Call::GetBufferSize => "getBufferSize"@,
        Call::CreateBuffers => "createBuffers"@,
        Call::GetLatencies => "getLatencies"@,
        Call::Start => "start"@,
        Call::Stop => "stop"@,
        Call::GetSamplePosition => "getSamplePosition"@,
        Call::DisposeBuffers => "disposeBuffers"@,
    }
}

fn name_of(call: Call) -> (name: &'static str)
    ensures
        name@ == call_name(call),
{
    match call {
        Call::Init => "init",
        Call::GetChannels => "getChannels",
        Call::CanSampleRate => "canSampleRate",
        Call::SetSampleRate => "setSampleRate",
        Call::GetBufferSize => "getBufferSize",
        Call::CreateBuffers => "createBuffers",
        Call::GetLatencies => "getLatencies",
        Call::Start => "start",
        Call::Stop => "stop",
        Call::GetSamplePosition => "getSamplePosition",
        Call::DisposeBuffers => "disposeBuffers",
    }
}

/// Whether a call that gave `code` went well: `init` gives a truth value.
pub open spec fn call_succeeded(call: Call, code: i32) -> bool {
    if call is Init {
        code != 0
    } else {
        code == ASE_OK
    }
}

/// What to say of a call that did not go well.
pub open spec fn call_failure(call: Call, code: i32, message: Seq<char>) -> Seq<char> {
    if call is Init {
        "init failed: "@ + message
    } else {
        call_name(call) + " returned "@ + decimal(code as int) + ": "@ + message
    }
}

/// Which call follows `call`, which gave `code`, where `message` is what the
/// driver says went wrong last. A call that did not go well ends the run.
pub fn next_call(call: Call, code: AsioError, message: &str) -> (next: Result<Option<Call>, String>)
    ensures
        match next {
            Ok(next) => call_succeeded(call, code) && next == call_after(call),
            Err(text) => !call_succeeded(call, code) && text@ == call_failure(call, code, message@),
        },
{
    if call == Call::Init {
        if code == 0 {
            let mut text: String = string_of("init failed: ");
            text.append(message);
            return Err(text);
        }
    } else if code != ASE_OK {
        let mut text: String = string_of(name_of(call));
        text.append(" returned ");
        push_signed(&mut text, code as i64);
        text.append(": ");
        text.append(message);
        return Err(text);
    }
    Ok(
        match call {
            Call::Init => Some(Call::GetChannels),
            Call::GetChannels => Some(Call::CanSampleRate),
            Call::CanSampleRate => Some(Call::SetSampleRate),
            Call::SetSampleRate => Some(Call::GetBufferSize),
            Call::GetBufferSize => Some(Call::CreateBuffers),
            Call::CreateBuffers => Some(Call::GetLatencies),
            Call::GetLatencies => Some(Call::Start),
            Call::Start => Some(Call::Stop),
            Call::Stop => Some(Call::GetSamplePosition),
            Call::GetSamplePosition => Some(Call::DisposeBuffers),
            Call::DisposeBuffers => None,
        },
    )
}

/// What having the driver open its control panel gave, where `message` is what
/// the driver says went wrong last.
pub fn panel_opened(code: AsioError, message: &str) -> (result: Result<(), String>)
    ensures
        match result {
            Ok(()) => code == ASE_OK,
            Err(text) => code != ASE_OK && text@ == "controlPanel returned "@ + decimal(code as int)
                + ": "@ + message@,
        },
{
    if code == ASE_OK {
        return Ok(());
    }
    let mut text: String = string_of("controlPanel returned ");
    push_signed(&mut text, code as i64);
    text.append(": ");
    text.append(message);
    Err(text)
}

/// How many calls follow `call` when all go well.
pub open spec fn calls_left(call: Call) -> nat {
    match call {
        Call::Init => 10,
        Call::GetChannels => 9,
        Call::CanSampleRate => 8,
        Call::SetSampleRate => 7,
        Call::GetBufferSize => 6,
        Call::CreateBuffers => 5,
        Call::GetLatencies => 4,
        Call::Start => 3,
        Call::Stop => 2,
        Call::GetSamplePosition => 1,
        Call::DisposeBuffers => 0,
    }
}

/// A run ends with the buffers disposed of, after every other call was made
/// once.
pub proof fn law_runs_end_with_buffers_disposed(call: Call)
    ensures
        match call_after(call) {
            Some(next) => calls_left(next) + 1 == calls_left(call),
            None => call is DisposeBuffers,
        },
{
}

/// What is counted while buffers switch.
#[derive(Clone, Copy, Debug, PartialEq, Eq, Structural)]
pub struct SwitchCount {
    pub frames: u64,
    pub switches: u64,
    pub position_errors: u64,
    pub last_position: u64,
    pub reset_requests: u64,
}

impl SwitchCount {
    pub fn new(frames: u64) -> (count: SwitchCount)
        ensures
            count == (SwitchCount {
                frames,
                switches: 0,
                position_errors: 0,
                last_position: 0,
                reset_requests: 0,
            }),
    {
        SwitchCount { frames, switches: 0, position_errors: 0, last_position: 0, reset_requests: 0 }
    }

    pub open spec fn switched(self, position: Option<u64>) -> SwitchCount {
        match position {
            None => SwitchCount { switches: (self.switches + 1) as u64, ..self },
            Some(position) => SwitchCount {
                switches: (self.switches + 1) as u64,
                position_errors: if position == self.switches * self.frames {
                    self.position_errors
                } else {
                    (self.position_errors + 1) as u64
                },
                last_position: position,
                ..self
            },
        }
    }

    /// Buffers switched, at `position` where the driver gave one: it should be
    /// the frames of the switches before.
    pub fn process(&mut self, position: Option<u64>)
        requires
            old(self).switches < u64::MAX,
            old(self).position_errors < u64::MAX,
            old(self).switches * old(self).frames <= u64::MAX,
        ensures
            *final(self) == old(self).switched(position),
    {
        let expected: u64 = self.switches * self.frames;
        self.switches = self.switches + 1;
        match position {
            Some(position) => {
                if position != expected {
                    self.position_errors = self.position_errors + 1;
                }
                self.last_position = position;
            },
            None => {},
        }
    }

    /// Answers a message of the driver.
    pub fn asio_message(&mut self, selector: i32, value: i32) -> (reply: i32)
        requires
            old(self).reset_requests < u64::MAX,
        ensures
            reply == (if selector == K_ASIO_SELECTOR_SUPPORTED {
                if value == K_ASIO_ENGINE_VERSION || value == K_ASIO_SUPPORTS_TIME_INFO || value
                    == K_ASIO_RESET_REQUEST {
                    1int
                } else {
                    0
                }
            } else if selector == K_ASIO_ENGINE_VERSION {
                2
            } else if selector == K_ASIO_RESET_REQUEST || selector == K_ASIO_SUPPORTS_TIME_INFO {
                1
            } else {
                0
            }),
            *final(self) == (SwitchCount {
                reset_requests: (old(self).reset_requests + if selector == K_ASIO_RESET_REQUEST {
                    1int
                } else {
                    0
                }) as u64,
                ..*old(self)
            }),
    {
        if selector == K_ASIO_SELECTOR_SUPPORTED {
            if value == K_ASIO_ENGINE_VERSION || value == K_ASIO_SUPPORTS_TIME_INFO || value
                == K_ASIO_RESET_REQUEST {
                1
            } else {
                0
            }
        } else if selector == K_ASIO_ENGINE_VERSION {
            2
        } else if selector == K_ASIO_RESET_REQUEST {
            self.reset_requests = self.reset_requests + 1;
            1
        } else if selector == K_ASIO_SUPPORTS_TIME_INFO {
            1
        } else {
            0
        }
    }
}

/// A driver that counts frames as it should is never found at fault.
pub proof fn law_true_positions_are_no_errors(count: SwitchCount, position: u64)
    requires
        count.switches < u64::MAX,
        position == count.switches * count.frames,
    ensures
        count.switched(Some(position)).position_errors == count.position_errors,
{
}

/// A text without a comma is its only part, and a comma parts what is before it
/// from what is behind it.
pub proof fn law_commas_part_texts(first: Seq<char>, second: Seq<char>)
    ensures
        parts(first).len() > 0,
        !first.contains(',') ==> parts(first) == seq![first],
        parts(first.push(',') + second) == parts(first) + parts(second),
{
    lemma_one_part(first);
    lemma_joined_parts(first, second);
}

proof fn lemma_one_part(text: Seq<char>)
    ensures
        parts(text).len() > 0,
        !text.contains(',') ==> parts(text) == seq![text],
    decreases text.len(),
{
    if text.len() > 0 {
        let before = text.drop_last();
        lemma_one_part(before);
        if !text.contains(',') {
            assert(text.contains(text[text.len() - 1]));
            assert forall|i: int| 0 <= i < before.len() implies before[i] != ',' by {
                assert(text.contains(text[i]));
            }
            assert(before.push(text.last()) =~= text);
            assert(parts(text) =~= seq![text]);
        }
    } else {
        assert(text =~= seq![]);
        assert(parts(text) =~= seq![text]);
    }
}

proof fn lemma_joined_parts(first: Seq<char>, second: Seq<char>)
    ensures
        parts(first.push(',') + second) == parts(first) + parts(second),
    decreases second.len(),
{
    let text = first.push(',') + second;
    lemma_one_part(first);
    if second.len() == 0 {
        assert(text.drop_last() =~= first);
        assert(parts(text) =~= parts(first) + parts(second));
    } else {
        let before = second.drop_last();
        lemma_one_part(before);
        lemma_joined_parts(first, before);
        assert(text.drop_last() =~= first.push(',') + before);
        assert(text.last() == second.last());
        assert(parts(text) =~= parts(first) + parts(second));
    }
}

/// The name that is reported is the first that is no channel's, and there is
/// none where all are.
pub proof fn law_first_unknown_name_is_reported(names: Seq<Seq<char>>, from: int, at: int)
    requires
        0 <= from <= at <= names.len(),
        forall|k: int| from <= k < at ==> channel_spec(#[trigger] names[k]) is Some,
    ensures
        at < names.len() && channel_spec(names[at]) is None ==> first_unknown(names, from) == Some(
            names[at],
        ),
        at == names.len() ==> first_unknown(names, from) is None,
    decreases names.len() - from,
{
    if from < at {
        assert(channel_spec(names[from]) is Some);
        law_first_unknown_name_is_reported(names, from + 1, at);
    }
}

/// A run asks for the device, its channels and the rate, sets the rate, makes
/// buffers of a size that it has asked for, streams, and disposes of them.
pub proof fn law_calls_in_order()
    ensures
        call_after(Call::Init) == Some(Call::GetChannels),
        call_after(Call::GetChannels) == Some(Call::CanSampleRate),
        call_after(Call::CanSampleRate) == Some(Call::SetSampleRate),
        call_after(Call::SetSampleRate) == Some(Call::GetBufferSize),
        call_after(Call::GetBufferSize) == Some(Call::CreateBuffers),
        call_after(Call::CreateBuffers) == Some(Call::GetLatencies),
        call_after(Call::GetLatencies) == Some(Call::Start),
        call_after(Call::Start) == Some(Call::Stop),
        call_after(Call::Stop) == Some(Call::GetSamplePosition),
        call_after(Call::GetSamplePosition) == Some(Call::DisposeBuffers),
        call_after(Call::DisposeBuffers) is None,
{
}

/// A call goes well with the code zero, but `init` with any other; what went
/// wrong names the call, its code and what the driver says.
pub proof fn law_calls_go_well_with_zero(call: Call, code: i32, message: Seq<char>)
    ensures
        call is Init ==> (call_succeeded(call, code) <==> code != 0),
        !(call is Init) ==> (call_succeeded(call, code) <==> code == 0),
        call is Init ==> call_failure(call, code, message) == "init failed: "@ + message,
        call is CreateBuffers ==> call_failure(call, code, message) == "createBuffers returned "@
            + decimal(code as int) + ": "@ + message,
        call is Start ==> call_failure(call, code, message) == "start returned "@ + decimal(
            code as int,
        ) + ": "@ + message,
        call is CanSampleRate ==> call_failure(call, code, message) == "canSampleRate returned "@
            + decimal(code as int) + ": "@ + message,
{
    reveal_strlit("createBuffers");
    reveal_strlit("start");
    reveal_strlit("canSampleRate");
    reveal_strlit(" returned ");
    reveal_strlit("createBuffers returned ");
    reveal_strlit("start returned ");
    reveal_strlit("canSampleRate returned ");
    assert("createBuffers"@ + " returned "@ =~= "createBuffers returned "@);
    assert("start"@ + " returned "@ =~= "start returned "@);
    assert("canSampleRate"@ + " returned "@ =~= "canSampleRate returned "@);
}

/// Every switch is counted. A position other than the frames of the switches
/// before it is an error, and the last one given is kept.
pub proof fn law_switches_are_counted(count: SwitchCount, position: u64)
    requires
        count.switches < u64::MAX,
        count.position_errors < u64::MAX,
    ensures
        count.switched(None).switches == count.switches + 1,
        count.switched(None).position_errors == count.position_errors,
        count.switched(None).last_position == count.last_position,
        count.switched(Some(position)).switches == count.switches + 1,
        position != count.switches * count.frames ==> count.switched(
            Some(position),
        ).position_errors == count.position_errors + 1,
        position == count.switches * count.frames ==> count.switched(
            Some(position),
        ).position_errors == count.position_errors,
        count.switched(Some(position)).last_position == position,
        count.switched(Some(position)).frames == count.frames,
        count.switched(Some(position)).reset_requests == count.reset_requests,
{
}

/// A number below zero is its digits behind a minus sign, with no other sign;
/// numbers are read as far as 32 bits go.
pub proof fn law_signed_numbers(digits: Seq<char>)
    requires
        digits.len() > 0,
        forall|k: int| 0 <= k < digits.len() ==> 48 <= #[trigger] digits[k] as int <= 57,
    ensures
        digits_value(digits) <= 0x7fff_ffff ==> parse_i32_spec(digits) == Some(
            digits_value(digits),
        ),
        digits_value(digits) > 0x7fff_ffff ==> parse_i32_spec(digits) is None,
        digits_value(digits) <= 0x8000_0000 ==> parse_i32_spec(seq!['-'] + digits) == Some(
            -digits_value(digits),
        ),
        digits_value(digits) > 0x8000_0000 ==> parse_i32_spec(seq!['-'] + digits) is None,
        parse_i32_spec(seq!['-', '+'] + digits) is None,
{
    assert(48 <= digits[0] as int <= 57);
    let below = seq!['-'] + digits;
    assert(below.subrange(1, below.len() as int) =~= digits);
    let both = seq!['-', '+'] + digits;
    assert(both.subrange(1, both.len() as int)[0] == '+');
    law_numbers_are_digits(digits, 0x7fff_ffff, 0);
    law_numbers_are_digits(digits, 0x8000_0000, 0);
}

/// The arguments are the word for the control panel, or a rate, a buffer size and
/// a time, with or without a list of channels.
pub proof fn law_arguments_are_counted(args: Seq<String>)
    ensures
        args.len() == 1 && args[0]@ == "panel"@ ==> mode_spec(args) == Some(Mode::Panel),
        args.len() == 1 && args[0]@ != "panel"@ ==> mode_spec(args) is None,
        args.len() == 3 ==> mode_spec(args) == Some(Mode::Stream),
        args.len() == 4 ==> mode_spec(args) == Some(Mode::StreamChannels),
        args.len() == 0 || args.len() == 2 || args.len() > 4 ==> mode_spec(args) is None,
{
}

/// The host says which messages it knows, that it is of the second version, and
/// counts the requests to start anew.
pub proof fn law_messages_are_answered(selector: i32, value: i32, reply: i32)
    ensures
        forall|count: &mut SwitchCount| #[trigger]
            call_ensures(SwitchCount::asio_message, (count, selector, value), reply)
                && count.reset_requests < u64::MAX ==> {
                let after = *final(count);
                &&& selector == 1 ==> (reply == 1 <==> value == 2 || value == 3 || value == 7)
                &&& selector == 2 ==> reply == 2
                &&& selector == 3 || selector == 7 ==> reply == 1
                &&& selector < 1 || selector > 7 || (4 <= selector <= 6) ==> reply == 0
                &&& selector == 3 ==> after.reset_requests == count.reset_requests + 1
                &&& selector != 3 ==> after.reset_requests == count.reset_requests
                &&& after.switches == count.switches
                &&& after.position_errors == count.position_errors
            },
{
}

} // verus!
