//! Commands to the device: how replies are awaited and which pipes carry
//! what.

use vstd::prelude::*;

use crate::com::{check_win32, from_win32_spec, HResult};
use crate::proto::{
    law_acceptance_is_one_byte, law_device_info_round_trips, parse_reply_spec, Command, DeviceSpec, EP_AUDIO_IN, EP_AUDIO_OUT,
    EP_CMD_IN, EP_CMD_OUT, Reply, ReplyView,
};
use crate::status::{
    NtStatus, STATUS_DEVICE_CONFIGURATION_ERROR, STATUS_IO_TIMEOUT, STATUS_NOT_SUPPORTED,
};

verus! {

pub const COMMAND_TIMEOUT_MS: i64 = 1000;

pub const SYNC_TIMEOUT_MS: i64 = 100;

/// The firmware keeps its endpoint 1 data toggles across SET_INTERFACE and
/// CLEAR_FEATURE(ENDPOINT_HALT), so after a session that ended with odd
/// toggles the first transfer in each direction is silently discarded.
/// Repeating an idempotent query realigns both pipes within a few attempts.
pub const SYNC_ATTEMPTS: usize = 4;

/// Unsolicited input reports may arrive before the answer to a command.
pub const REPLY_ATTEMPTS: usize = 8;

pub const ERROR_SEM_TIMEOUT: u32 = 121;

/// The outcome of waiting for a message of the device.
#[derive(Clone, Copy, Debug)]
pub enum Received<'a> {
    Message(&'a [u8]),
    TimedOut,
    Failed(i32),
}

/// What a read of the kernel's gave.
pub fn received_status(result: Result<&[u8], NtStatus>) -> (received: Received)
    ensures
        received == match result {
            Ok(message) => Received::Message(message),
            Err(status) => if status == STATUS_IO_TIMEOUT {
                Received::TimedOut
            } else {
                Received::Failed(status)
            },
        },
{
    match result {
        Ok(message) => Received::Message(message),
        Err(status) => if status == STATUS_IO_TIMEOUT {
            Received::TimedOut
        } else {
            Received::Failed(status)
        },
    }
}

/// What a read from user mode gave.
pub fn received_hresult(result: Result<&[u8], HResult>) -> (received: Received)
    ensures
        received == match result {
            Ok(message) => Received::Message(message),
            Err(code) => if code == from_win32_spec(ERROR_SEM_TIMEOUT) {
                Received::TimedOut
            } else {
                Received::Failed(code)
            },
        },
{
    match result {
        Ok(message) => Received::Message(message),
        Err(code) => match check_win32(ERROR_SEM_TIMEOUT) {
            Err(timeout) => if code == timeout {
                Received::TimedOut
            } else {
                Received::Failed(code)
            },
            Ok(()) => Received::Failed(code),
        },
    }
}

/// How to go on after asking the device what it is.
#[derive(Clone, Copy, Debug, PartialEq, Eq, Structural)]
pub enum SyncStep {
    /// Ask again.
    Again,
    Found(DeviceSpec),
    /// It did not answer.
    GaveUp,
    Failed(i32),
}

/// What a message says the device is.
pub open spec fn device_info(message: Seq<u8>) -> Option<DeviceSpec> {
    match parse_reply_spec(message) {
        Some(ReplyView::DeviceInfo(spec)) => Some(spec),
        _ => None,
    }
}

pub open spec fn sync_step_spec(attempt: int, received: Received) -> SyncStep {
    let again = if attempt + 1 < SYNC_ATTEMPTS {
        SyncStep::Again
    } else {
        SyncStep::GaveUp
    };
    match received {
        Received::Message(message) => match device_info(message@) {
            Some(spec) => SyncStep::Found(spec),
            None => again,
        },
        Received::TimedOut => again,
        Received::Failed(code) => SyncStep::Failed(code),
    }
}

/// How to go on after attempt number `attempt`, counted from 0, to ask the
/// device what it is.
pub fn sync_step(attempt: usize, received: Received) -> (step: SyncStep)
    requires
        attempt < SYNC_ATTEMPTS,
    ensures
        step == sync_step_spec(attempt as int, received),
{
    let again = if attempt + 1 < SYNC_ATTEMPTS {
        SyncStep::Again
    } else {
        SyncStep::GaveUp
    };
    match received {
        Received::Message(message) => match Reply::parse(message) {
            Some(Reply::DeviceInfo(spec)) => SyncStep::Found(spec),
            _ => again,
        },
        Received::TimedOut => again,
        Received::Failed(code) => SyncStep::Failed(code),
    }
}

/// What comes of asking up to the end of `outcomes`, from attempt `attempt` on.
pub open spec fn sync_outcome(outcomes: Seq<Received>, attempt: int) -> SyncStep
    decreases outcomes.len() - attempt,
{
    if attempt < 0 || attempt >= outcomes.len() {
        SyncStep::Again
    } else {
        match sync_step_spec(attempt, outcomes[attempt]) {
            SyncStep::Again => sync_outcome(outcomes, attempt + 1),
            step => step,
        }
    }
}

/// A device that loses up to three answers and sends the next one is found.
pub proof fn law_late_answers_are_found(outcomes: Seq<Received>, lost: int, from: int, spec: DeviceSpec)
    requires
        0 <= from <= lost < SYNC_ATTEMPTS,
        outcomes.len() == SYNC_ATTEMPTS,
        forall|i: int| 0 <= i < lost ==> (#[trigger] outcomes[i]) is TimedOut,
        outcomes[lost] matches Received::Message(message) && device_info(message@) == Some(spec),
    ensures
        sync_outcome(outcomes, from) == SyncStep::Found(spec),
    decreases lost - from,
{
    if from < lost {
        law_late_answers_are_found(outcomes, lost, from + 1, spec);
    }
}

/// Asking ends after the last attempt, whatever came.
pub proof fn law_asking_ends(outcomes: Seq<Received>, from: int)
    requires
        0 <= from < SYNC_ATTEMPTS,
        outcomes.len() == SYNC_ATTEMPTS,
    ensures
        sync_outcome(outcomes, from) !is Again,
    decreases SYNC_ATTEMPTS - from,
{
    if from + 1 < SYNC_ATTEMPTS {
        law_asking_ends(outcomes, from + 1);
    }
}

/// How the kernel reports the end of asking.
pub fn sync_status(step: SyncStep) -> (result: Result<DeviceSpec, NtStatus>)
    requires
        step !is Again,
    ensures
        result == match step {
            SyncStep::Found(spec) => Ok(spec),
            SyncStep::Failed(code) => Err(code),
            _ => Err(STATUS_IO_TIMEOUT),
        },
{
    match step {
        SyncStep::Found(spec) => Ok(spec),
        SyncStep::Failed(code) => Err(code),
        _ => Err(STATUS_IO_TIMEOUT),
    }
}

/// How to go on after setting the audio parameters.
#[derive(Clone, Copy, Debug, PartialEq, Eq, Structural)]
pub enum ParamsStep {
    /// Wait for another message.
    Again,
    Accepted,
    Rejected,
    /// No answer came.
    GaveUp,
}

/// How to go on when message number `attempt`, counted from 0, of at most
/// `attempts` is `message`.
pub fn params_step(attempt: usize, attempts: usize, message: &[u8]) -> (step: ParamsStep)
    requires
        attempt < attempts,
    ensures
        step == match parse_reply_spec(message@) {
            Some(ReplyView::AudioParams { accepted }) => if accepted {
                ParamsStep::Accepted
            } else {
                ParamsStep::Rejected
            },
            _ => if attempt + 1 < attempts {
                ParamsStep::Again
            } else {
                ParamsStep::GaveUp
            },
        },
{
    match Reply::parse(message) {
        Some(Reply::AudioParams { accepted }) => if accepted {
            ParamsStep::Accepted
        } else {
            ParamsStep::Rejected
        },
        _ => if attempt + 1 < attempts {
            ParamsStep::Again
        } else {
            ParamsStep::GaveUp
        },
    }
}

/// How the kernel reports the end of setting the audio parameters.
pub fn params_status(step: ParamsStep) -> (result: Result<(), NtStatus>)
    requires
        step !is Again,
    ensures
        result == match step {
            ParamsStep::Accepted => Ok(()),
            ParamsStep::Rejected => Err(STATUS_NOT_SUPPORTED),
            _ => Err(STATUS_IO_TIMEOUT),
        },
{
    match step {
        ParamsStep::Accepted => Ok(()),
        ParamsStep::Rejected => Err(STATUS_NOT_SUPPORTED),
        _ => Err(STATUS_IO_TIMEOUT),
    }
}

/// The first pipe from `from` on with endpoint address `address`.
pub open spec fn pipe_index(addresses: Seq<u8>, address: u8, from: int) -> Option<int>
    decreases addresses.len() - from,
{
    if from < 0 || from >= addresses.len() {
        None
    } else if addresses[from] == address {
        Some(from)
    } else {
        pipe_index(addresses, address, from + 1)
    }
}

/// The pipe with endpoint address `address`, among pipes with the given ones.
pub fn find_pipe(addresses: &[u8], address: u8) -> (pipe: Result<usize, NtStatus>)
    ensures
        match pipe {
            Ok(index) => pipe_index(addresses@, address, 0) == Some(index as int),
            Err(status) => {
                &&& pipe_index(addresses@, address, 0) is None
                &&& status == STATUS_DEVICE_CONFIGURATION_ERROR
            },
        },
{
    let mut index: usize = 0;
    while index < addresses.len()
        invariant
            index <= addresses.len(),
            pipe_index(addresses@, address, 0) == pipe_index(addresses@, address, index as int),
        decreases addresses.len() - index,
    {
        if addresses[index] == address {
            return Ok(index);
        }
        index = index + 1;
    }
    Err(STATUS_DEVICE_CONFIGURATION_ERROR)
}

/// The pipes of the streaming alternate setting.
#[derive(Clone, Copy, Debug, PartialEq, Eq, Structural)]
pub struct Pipes {
    pub cmd_out: usize,
    pub cmd_in: usize,
    pub audio_in: usize,
    pub audio_out: usize,
}

/// Finds the pipes of the streaming alternate setting.
pub fn select_streaming(addresses: &[u8]) -> (pipes: Result<Pipes, NtStatus>)
    ensures
        match pipes {
            Ok(pipes) => {
                &&& pipe_index(addresses@, EP_CMD_OUT, 0) == Some(pipes.cmd_out as int)
                &&& pipe_index(addresses@, EP_CMD_IN, 0) == Some(pipes.cmd_in as int)
                &&& pipe_index(addresses@, EP_AUDIO_IN, 0) == Some(pipes.audio_in as int)
                &&& pipe_index(addresses@, EP_AUDIO_OUT, 0) == Some(pipes.audio_out as int)
            },
            Err(status) => {
                &&& status == STATUS_DEVICE_CONFIGURATION_ERROR
                &&& {
                    ||| pipe_index(addresses@, EP_CMD_OUT, 0) is None
                    ||| pipe_index(addresses@, EP_CMD_IN, 0) is None
                    ||| pipe_index(addresses@, EP_AUDIO_IN, 0) is None
                    ||| pipe_index(addresses@, EP_AUDIO_OUT, 0) is None
                }
            },
        },
{
    let cmd_out: usize = match find_pipe(addresses, EP_CMD_OUT) {
        Ok(pipe) => pipe,
        Err(status) => {
            return Err(status);
        },
    };
    let cmd_in: usize = match find_pipe(addresses, EP_CMD_IN) {
        Ok(pipe) => pipe,
        Err(status) => {
            return Err(status);
        },
    };
    let audio_in: usize = match find_pipe(addresses, EP_AUDIO_IN) {
        Ok(pipe) => pipe,
        Err(status) => {
            return Err(status);
        },
    };
    let audio_out: usize = match find_pipe(addresses, EP_AUDIO_OUT) {
        Ok(pipe) => pipe,
        Err(status) => {
            return Err(status);
        },
    };
    Ok(Pipes { cmd_out, cmd_in, audio_in, audio_out })
}

/// A time of `ms` milliseconds from now, in units of 100 ns: negative means
/// relative.
pub fn relative_timeout(ms: i64) -> (timeout: i64)
    requires
        -922_337_203_685_477 <= ms <= 922_337_203_685_477,
    ensures
        timeout == -ms * 10_000,
{
    -ms * 10_000
}

/// The pipe of an endpoint is the first one with its address, and where there is
/// one it is found.
pub proof fn law_first_pipes_are_found(addresses: Seq<u8>, address: u8, from: int, at: int)
    requires
        0 <= from <= at <= addresses.len(),
        forall|k: int| from <= k < at ==> #[trigger] addresses[k] != address,
    ensures
        at < addresses.len() && addresses[at] == address ==> pipe_index(addresses, address, from)
            == Some(at),
        at == addresses.len() ==> pipe_index(addresses, address, from) is None,
    decreases addresses.len() - from,
{
    if from < at {
        assert(addresses[from] != address);
        law_first_pipes_are_found(addresses, address, from + 1, at);
    }
}

/// The device is found by the message that begins with its byte and describes
/// it. Any other message, and none in time, is asked for again up to the fourth
/// attempt; a failure ends the asking.
pub proof fn law_asking_goes_on_until_an_answer(
    attempt: int,
    message: &[u8],
    spec: DeviceSpec,
    rest: Seq<u8>,
    code: i32,
)
    requires
        0 <= attempt < 4,
    ensures
        message@ == seq![1u8] + spec.wire() + rest ==> sync_step_spec(
            attempt,
            Received::Message(message),
        ) == SyncStep::Found(spec),
        message@.len() == 0 || message@[0] != 1 || message@.len() < 15 ==> sync_step_spec(
            attempt,
            Received::Message(message),
        ) == sync_step_spec(attempt, Received::TimedOut),
        attempt < 3 ==> sync_step_spec(attempt, Received::TimedOut) == SyncStep::Again,
        attempt == 3 ==> sync_step_spec(attempt, Received::TimedOut) == SyncStep::GaveUp,
        sync_step_spec(attempt, Received::Failed(code)) == SyncStep::Failed(code),
{
    if message@ == seq![1u8] + spec.wire() + rest {
        law_device_info_round_trips(spec, rest);
        assert(seq![1u8] =~= seq![Command::GetDeviceInfo.code_spec()]);
    }
    if message@.len() > 0 {
        assert(message@.subrange(1, message@.len() as int).len() == message@.len() - 1);
    }
}

/// The pipes of the streaming setting are found by their addresses, the outputs
/// 1 and 6 and the inputs 0x81 and 0x82, wherever they stand.
pub proof fn law_streaming_pipes_by_address(
    addresses: &[u8],
    pipes: Result<Pipes, NtStatus>,
    commands: (int, int),
    audio: (int, int),
)
    requires
        call_ensures(select_streaming, (addresses,), pipes),
        0 <= commands.0 < addresses@.len() && addresses@[commands.0] == 0x01,
        0 <= commands.1 < addresses@.len() && addresses@[commands.1] == 0x81,
        0 <= audio.0 < addresses@.len() && addresses@[audio.0] == 0x82,
        0 <= audio.1 < addresses@.len() && addresses@[audio.1] == 0x06,
    ensures
        pipes matches Ok(found) && {
            &&& addresses@[found.cmd_out as int] == 0x01
            &&& addresses@[found.cmd_in as int] == 0x81
            &&& addresses@[found.audio_in as int] == 0x82
            &&& addresses@[found.audio_out as int] == 0x06
        },
{
    lemma_pipe(addresses@, 0x01, 0, commands.0);
    lemma_pipe(addresses@, 0x81, 0, commands.1);
    lemma_pipe(addresses@, 0x82, 0, audio.0);
    lemma_pipe(addresses@, 0x06, 0, audio.1);
}

proof fn lemma_pipe(addresses: Seq<u8>, address: u8, from: int, at: int)
    requires
        0 <= from <= at < addresses.len(),
        addresses[at] == address,
    ensures
        pipe_index(addresses, address, from) matches Some(index) && from <= index <= at
            && addresses[index] == address,
    decreases addresses.len() - from,
{
    if addresses[from] != address {
        lemma_pipe(addresses, address, from + 1, at);
    }
}

/// The parameters are accepted by a reply that says one and rejected by a reply
/// that says otherwise; other messages are passed over as long as another is
/// waited for.
pub proof fn law_parameters_are_answered(
    attempt: usize,
    attempts: usize,
    message: &[u8],
    step: ParamsStep,
    answer: u8,
    rest: Seq<u8>,
)
    requires
        attempt < attempts,
        call_ensures(params_step, (attempt, attempts, message), step),
    ensures
        message@ == seq![9u8, answer] + rest ==> step == (if answer == 1 {
            ParamsStep::Accepted
        } else {
            ParamsStep::Rejected
        }),
        (message@.len() < 2 || message@[0] != 9) && attempt + 1 < attempts ==> step
            == ParamsStep::Again,
        (message@.len() < 2 || message@[0] != 9) && attempt + 1 == attempts ==> step
            == ParamsStep::GaveUp,
{
    law_acceptance_is_one_byte(answer, rest);
}

/// A relative time counts ten thousand units of 100 ns per millisecond, below
/// zero.
pub proof fn law_relative_times_are_negative(ms: i64, timeout: i64)
    requires
        -922_337_203_685_477 <= ms <= 922_337_203_685_477,
        call_ensures(relative_timeout, (ms,), timeout),
    ensures
        timeout + 10_000 * ms == 0,
{
}

} // verus!
