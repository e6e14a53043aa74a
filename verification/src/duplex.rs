//! Full-duplex streaming over the driver's three endpoints. Capture drives the
//! ASIO buffer switch; output blocks go through small FIFOs to the render
//! endpoints, which the same device clock paces.

use std::collections::VecDeque;

use vstd::prelude::*;

use crate::abi::{
    AsioU64, split, K_SAMPLE_POSITION_VALID, K_SAMPLE_RATE_VALID, K_SYSTEM_TIME_VALID,
};
use crate::rt::Slot;
use crate::text::{chars_end, chars_of, chars_within, ends_with, holds, holds_at, lower, lower_chars};

verus! {

pub const INPUTS: usize = 2;

pub const OUTPUTS: usize = 4;

pub const USB_VID_PID: &'static str = "vid_17cc&pid_0815";

pub const WAVE_FORMAT_EXTENSIBLE: u16 = 0xfffe;

/// How long the streaming thread waits for an event.
pub const WAIT_MS: u32 = 1000;

pub const WAIT_TIMEOUT: u32 = 0x102;

/// 0x88890019
pub const AUDCLNT_E_BUFFER_SIZE_NOT_ALIGNED: i32 = -2004287463;

/// 0x88890008
pub const AUDCLNT_E_UNSUPPORTED_FORMAT: i32 = -2004287480;

/// The end of the path of the filter behind an endpoint.
pub open spec fn filter_name(slot: Slot) -> Seq<char> {
    match slot {
        Slot::Output12 => "\\output12"@,
        Slot::Output34 => "\\output34"@,
        Slot::Input12 => "\\input12"@,
    }
}

/// The endpoint whose filter has the path `path`, if it is one of the device's.
pub open spec fn endpoint_slot_spec(path: Seq<char>) -> Option<Slot> {
    let filter = lower(path);
    if !holds(filter, USB_VID_PID@) {
        None
    } else if ends_with(filter, filter_name(Slot::Output12)) {
        Some(Slot::Output12)
    } else if ends_with(filter, filter_name(Slot::Output34)) {
        Some(Slot::Output34)
    } else if ends_with(filter, filter_name(Slot::Input12)) {
        Some(Slot::Input12)
    } else {
        None
    }
}

/// Which of the device's endpoints the filter with the path `path` is behind.
pub fn endpoint_slot(path: &str) -> (slot: Option<Slot>)
    ensures
        slot == endpoint_slot_spec(path@),
{
    let filter: Vec<char> = lower_chars(path);
    let id: Vec<char> = chars_of(USB_VID_PID);
    let output12: Vec<char> = chars_of("\\output12");
    let output34: Vec<char> = chars_of("\\output34");
    let input12: Vec<char> = chars_of("\\input12");
    if !chars_within(filter.as_slice(), id.as_slice()) {
        None
    } else if chars_end(filter.as_slice(), output12.as_slice()) {
        Some(Slot::Output12)
    } else if chars_end(filter.as_slice(), output34.as_slice()) {
        Some(Slot::Output34)
    } else if chars_end(filter.as_slice(), input12.as_slice()) {
        Some(Slot::Input12)
    } else {
        None
    }
}

/// The last of `paths` that is the filter behind `slot`.
pub open spec fn last_endpoint(paths: Seq<Option<String>>, slot: Slot) -> Option<int>
    decreases paths.len(),
{
    if paths.len() == 0 {
        None
    } else {
        match paths.last() {
            Some(path) if endpoint_slot_spec(path@) == Some(slot) => Some(paths.len() - 1),
            _ => last_endpoint(paths.drop_last(), slot),
        }
    }
}

/// Where the device's endpoints are among the active ones.
#[derive(Clone, Copy, Debug, PartialEq, Eq, Structural)]
pub struct Endpoints {
    pub output12: usize,
    pub output34: usize,
    pub input12: usize,
}

/// Finds the endpoints whose filter is one of the driver's circuits, given the
/// path of the filter behind each active endpoint, where it is known.
pub fn find_endpoints(paths: &Vec<Option<String>>) -> (endpoints: Option<Endpoints>)
    ensures
        match endpoints {
            Some(found) => {
                &&& last_endpoint(paths@, Slot::Output12) == Some(found.output12 as int)
                &&& last_endpoint(paths@, Slot::Output34) == Some(found.output34 as int)
                &&& last_endpoint(paths@, Slot::Input12) == Some(found.input12 as int)
            },
            None => {
                ||| last_endpoint(paths@, Slot::Output12) is None
                ||| last_endpoint(paths@, Slot::Output34) is None
                ||| last_endpoint(paths@, Slot::Input12) is None
            },
        },
{
    let mut output12: Option<usize> = None;
    let mut output34: Option<usize> = None;
    let mut input12: Option<usize> = None;
    let mut i: usize = 0;
    while i < paths.len()
        invariant
            i <= paths.len(),
            same_place(output12, last_endpoint(paths@.subrange(0, i as int), Slot::Output12)),
            same_place(output34, last_endpoint(paths@.subrange(0, i as int), Slot::Output34)),
            same_place(input12, last_endpoint(paths@.subrange(0, i as int), Slot::Input12)),
        decreases paths.len() - i,
    {
        proof {
            assert(paths@.subrange(0, i + 1).drop_last() =~= paths@.subrange(0, i as int));
        }
        let slot: Option<Slot> = match &paths[i] {
            Some(path) => endpoint_slot(path.as_str()),
            None => None,
        };
        match slot {
            Some(Slot::Output12) => {
                output12 = Some(i);
            },
            Some(Slot::Output34) => {
                output34 = Some(i);
            },
            Some(Slot::Input12) => {
                input12 = Some(i);
            },
            None => {},
        }
        i = i + 1;
    }
    assert(paths@.subrange(0, i as int) =~= paths@);
    match (output12, output34, input12) {
        (Some(output12), Some(output34), Some(input12)) => Some(
            Endpoints { output12, output34, input12 },
        ),
        _ => None,
    }
}

spec fn same_place(place: Option<usize>, expected: Option<int>) -> bool {
    match place {
        Some(place) => expected == Some(place as int),
        None => expected is None,
    }
}

/// The format in which the endpoints are opened: stereo, 24 bits in 32.
#[derive(Clone, Copy, Debug, PartialEq, Eq, Structural)]
pub struct WaveFormat {
    pub format_tag: u16,
    pub channels: u16,
    pub samples_per_sec: u32,
    pub avg_bytes_per_sec: u32,
    pub block_align: u16,
    pub bits_per_sample: u16,
    pub cb_size: u16,
    pub valid_bits_per_sample: u16,
    pub channel_mask: u32,
}

pub open spec fn stream_format_spec(rate: u32) -> WaveFormat {
    WaveFormat {
        format_tag: WAVE_FORMAT_EXTENSIBLE,
        channels: 2,
        samples_per_sec: rate,
        avg_bytes_per_sec: (rate * 8) as u32,
        block_align: 8,
        bits_per_sample: 32,
        cb_size: 22,
        valid_bits_per_sample: 24,
        channel_mask: 3,
    }
}

pub fn stream_format(rate: u32) -> (format: WaveFormat)
    requires
        rate * 8 <= u32::MAX,
    ensures
        format == stream_format_spec(rate),
{
    WaveFormat {
        format_tag: WAVE_FORMAT_EXTENSIBLE,
        channels: 2,
        samples_per_sec: rate,
        avg_bytes_per_sec: rate * 8,
        block_align: 8,
        bits_per_sample: 32,
        cb_size: 22,
        valid_bits_per_sample: 24,
        channel_mask: 3,
    }
}

/// The length of `frames` in units of 100 ns, rounded to the nearest.
pub open spec fn period_spec(frames: int, rate: int) -> int {
    (frames * 10_000_000 + rate / 2) / rate
}

/// The length of `frames` in units of 100 ns.
pub fn period(frames: u32, rate: u32) -> (hns: i64)
    requires
        rate > 0,
    ensures
        hns == period_spec(frames as int, rate as int),
{
    let sum: u64 = frames as u64 * 10_000_000 + rate as u64 / 2;
    proof {
        assert(sum / (rate as u64) <= sum) by (nonlinear_arith)
            requires
                rate > 0,
        ;
    }
    (sum / rate as u64) as i64
}

/// How to go on after the first attempt to open a stream.
#[derive(Clone, Copy, Debug, PartialEq, Eq, Structural)]
pub enum OpenStep {
    /// The stream is open.
    Opened,
    /// Try again with the period of the buffer size the endpoint asks for.
    Align,
    Failed(i32),
}

/// How to go on after an attempt with the period that was asked for.
pub fn open_step(result: Result<(), i32>) -> (step: OpenStep)
    ensures
        step == match result {
            Ok(()) => OpenStep::Opened,
            Err(code) => if code == AUDCLNT_E_BUFFER_SIZE_NOT_ALIGNED {
                OpenStep::Align
            } else {
                OpenStep::Failed(code)
            },
        },
{
    match result {
        Ok(()) => OpenStep::Opened,
        Err(code) => if code == AUDCLNT_E_BUFFER_SIZE_NOT_ALIGNED {
            OpenStep::Align
        } else {
            OpenStep::Failed(code)
        },
    }
}

/// A stereo frame.
pub type Pair = [i32; 2];

/// Host side of a session: the double buffers, `2 * buffer_frames` samples
/// each, and which of them belongs to which channel.
#[derive(Debug)]
pub struct Host {
    pub time_info: bool,
    pub buffer_frames: usize,
    pub rate: u32,
    pub inputs: [Option<usize>; INPUTS],
    pub outputs: [Option<usize>; OUTPUTS],
    pub buffers: Vec<Vec<i32>>,
}

/// A host side as a value.
#[verifier::ext_equal]
pub struct HostView {
    pub time_info: bool,
    pub frames: int,
    pub rate: u32,
    pub inputs: Seq<Option<usize>>,
    pub outputs: Seq<Option<usize>>,
    pub buffers: Seq<Seq<i32>>,
}

impl View for Host {
    type V = HostView;

    open spec fn view(&self) -> HostView {
        HostView {
            time_info: self.time_info,
            frames: self.buffer_frames as int,
            rate: self.rate,
            inputs: self.inputs@,
            outputs: self.outputs@,
            buffers: Seq::new(self.buffers@.len(), |i: int| self.buffers@[i]@),
        }
    }
}

/// Whether `place` is buffer `index`.
pub open spec fn is_buffer(place: Option<usize>, index: int) -> bool {
    place matches Some(place) && place == index
}

impl HostView {
    pub open spec fn has_buffer(self, buffer: Option<usize>) -> bool {
        buffer matches Some(index) ==> index < self.buffers.len()
    }

    pub open spec fn wf(self) -> bool {
        &&& 0 < self.frames
        &&& 5 * self.frames <= usize::MAX
        &&& self.inputs.len() == INPUTS
        &&& self.outputs.len() == OUTPUTS
        &&& forall|i: int| 0 <= i < self.buffers.len() ==> (#[trigger] self.buffers[i]).len() == 2
            * self.frames
        &&& forall|c: int| 0 <= c < INPUTS ==> self.has_buffer(#[trigger] self.inputs[c])
        &&& forall|c: int| 0 <= c < OUTPUTS ==> self.has_buffer(#[trigger] self.outputs[c])
    }

    /// Sample `i` of half `half` of the buffer of output `channel`: silence
    /// where the channel has none.
    pub open spec fn output_sample(self, channel: int, half: int, i: int) -> i32 {
        match self.outputs[channel] {
            Some(buffer) => self.buffers[buffer as int][half * self.frames + i],
            None => 0,
        }
    }

    /// Output pair `pair` of half `half`.
    pub open spec fn output_block(self, pair: int, half: int) -> Seq<Pair> {
        Seq::new(
            self.frames as nat,
            |i: int|
                [
                    self.output_sample(2 * pair, half, i),
                    self.output_sample(2 * pair + 1, half, i),
                ],
        )
    }

    /// The buffers with a block of captured frames in half `half` of those of
    /// the input channels.
    pub open spec fn with_inputs(self, half: int, block: Seq<Pair>) -> HostView {
        HostView {
            buffers: Seq::new(
                self.buffers.len(),
                |b: int|
                    if is_buffer(self.inputs[1], b) {
                        with_channel(self.buffers[b], half * self.frames, block, 1)
                    } else if is_buffer(self.inputs[0], b) {
                        with_channel(self.buffers[b], half * self.frames, block, 0)
                    } else {
                        self.buffers[b]
                    },
            ),
            ..self
        }
    }
}

/// `buffer` with one channel of `block` at `at`.
pub open spec fn with_channel(
    buffer: Seq<i32>,
    at: int,
    block: Seq<Pair>,
    channel: int,
) -> Seq<i32> {
    Seq::new(
        buffer.len(),
        |i: int|
            if at <= i < at + block.len() {
                block[i - at]@[channel]
            } else {
                buffer[i]
            },
    )
}

/// Writes one channel of `block` into `buffer` at `at`.
fn write_channel(buffer: &mut Vec<i32>, at: usize, block: &Vec<Pair>, channel: usize)
    requires
        at + block.len() <= old(buffer).len(),
        channel < 2,
    ensures
        final(buffer)@ == with_channel(old(buffer)@, at as int, block@, channel as int),
{
    let ghost before = buffer@;
    let mut i: usize = 0;
    while i < block.len()
        invariant
            i <= block.len(),
            at + block.len() <= buffer.len(),
            buffer.len() == before.len(),
            channel < 2,
            forall|k: int| 0 <= k < at ==> buffer[k] == before[k],
            forall|k: int| at <= k < at + i ==> buffer[k] == block@[k - at]@[channel as int],
            forall|k: int| at + i <= k < before.len() ==> buffer[k] == before[k],
        decreases block.len() - i,
    {
        buffer[at + i] = block[i][channel];
        i = i + 1;
    }
    assert(buffer@ =~= with_channel(before, at as int, block@, channel as int));
}

/// Position and time of the most recent buffer switch.
#[derive(Clone, Copy, Debug, PartialEq, Eq, Structural)]
pub struct Clock {
    pub sample_position: u64,
    pub system_time_ns: u64,
}

impl Default for Clock {
    fn default() -> (clock: Clock)
        ensures
            clock == (Clock { sample_position: 0, system_time_ns: 0 }),
    {
        Clock { sample_position: 0, system_time_ns: 0 }
    }
}

/// The performance counter `qpc` in nanoseconds, for a counter of `hz` ticks a
/// second; the count wraps. A counter that runs backwards stands still.
pub open spec fn nanoseconds_spec(qpc: int, hz: int) -> int {
    if hz > 0 {
        (qpc * 1_000_000_000 / hz) % 0x1_0000_0000_0000_0000
    } else {
        0
    }
}

/// The performance counter `qpc` in nanoseconds.
pub fn nanoseconds(qpc: i64, hz: i64) -> (ns: u64)
    requires
        qpc >= 0,
        hz != 0,
    ensures
        ns == nanoseconds_spec(qpc as int, hz as int),
{
    if hz < 0 {
        return 0;
    }
    let product: u128 = qpc as u128 * 1_000_000_000;
    ((product / hz as u128) % 0x1_0000_0000_0000_0000) as u64
}

/// A buffer switch that is going on.
#[derive(Clone, Copy, Debug, PartialEq, Eq, Structural)]
pub struct Switch {
    /// Which half of the double buffers the host works on.
    pub index: usize,
    pub position: u64,
    pub now_ns: u64,
}

/// The time information that goes with a buffer switch.
#[derive(Clone, Copy, Debug, PartialEq, Eq, Structural)]
pub struct SwitchTime {
    pub system_time: AsioU64,
    pub sample_position: AsioU64,
    pub sample_rate: u32,
    pub flags: u32,
}

impl Switch {
    pub fn clock(&self) -> (clock: Clock)
        ensures
            clock == (Clock { sample_position: self.position, system_time_ns: self.now_ns }),
    {
        Clock { sample_position: self.position, system_time_ns: self.now_ns }
    }

    pub fn time(&self, rate: u32) -> (time: SwitchTime)
        ensures
            time == (SwitchTime {
                system_time: split(self.now_ns),
                sample_position: split(self.position),
                sample_rate: rate,
                flags: 7,
            }),
    {
        SwitchTime {
            system_time: AsioU64::from(self.now_ns),
            sample_position: AsioU64::from(self.position),
            sample_rate: rate,
            flags: K_SYSTEM_TIME_VALID + K_SAMPLE_POSITION_VALID + K_SAMPLE_RATE_VALID,
        }
    }
}

/// What the streaming thread does about the object its wait ended with.
#[derive(Clone, Copy, Debug, PartialEq, Eq, Structural)]
pub enum Event {
    /// Nothing happened.
    Wait,
    /// Captured frames are there.
    Capture,
    /// Render endpoint 0 or 1 wants frames.
    Render(usize),
    Stop,
}

/// What to do about the outcome of waiting for the stop, capture and render
/// events.
pub fn event(wait: u32) -> (event: Event)
    ensures
        event == (if wait == WAIT_TIMEOUT {
            Event::Wait
        } else if wait == 1 {
            Event::Capture
        } else if wait == 2 || wait == 3 {
            Event::Render((wait - 2) as usize)
        } else {
            Event::Stop
        }),
{
    if wait == WAIT_TIMEOUT {
        Event::Wait
    } else if wait == 1 {
        Event::Capture
    } else if wait == 2 || wait == 3 {
        Event::Render((wait - 2) as usize)
    } else {
        Event::Stop
    }
}

/// Moves frames between the endpoints and the host's buffers.
#[derive(Debug)]
pub struct Worker {
    host: Host,
    captured: VecDeque<Pair>,
    outputs: [VecDeque<Pair>; 2],
    index: usize,
    position: u64,
}

/// A worker as a value.
#[verifier::ext_equal]
pub struct WorkerView {
    pub host: HostView,
    /// Captured frames that the host has not got yet.
    pub captured: Seq<Pair>,
    /// Frames for the render endpoints.
    pub outputs: Seq<Seq<Pair>>,
    /// The half of the double buffers that comes next.
    pub index: int,
    /// Frames that the host has got.
    pub position: int,
}

/// The last `limit` of some frames.
pub open spec fn newest(frames: Seq<Pair>, limit: int) -> Seq<Pair> {
    if frames.len() > limit {
        frames.skip(frames.len() - limit)
    } else {
        frames
    }
}

/// The next `count` frames of a FIFO, and silence after its end.
pub open spec fn fed(fifo: Seq<Pair>, count: nat) -> Seq<Pair> {
    Seq::new(
        count,
        |i: int|
            if i < fifo.len() {
                fifo[i]
            } else {
                [0i32, 0i32]
            },
    )
}

/// What is left of a FIFO after `count` frames were taken.
pub open spec fn left(fifo: Seq<Pair>, count: nat) -> Seq<Pair> {
    if count < fifo.len() {
        fifo.skip(count as int)
    } else {
        seq![]
    }
}

impl WorkerView {
    pub open spec fn wf(self) -> bool {
        &&& self.host.wf()
        &&& self.outputs.len() == 2
        &&& self.outputs[0].len() <= 4 * self.host.frames
        &&& self.outputs[1].len() <= 4 * self.host.frames
        &&& self.index == 0 || self.index == 1
    }

    /// The host is about to work on the next half: its inputs are there.
    pub open spec fn begun(self) -> WorkerView {
        WorkerView {
            host: self.host.with_inputs(
                self.index,
                self.captured.subrange(0, self.host.frames),
            ),
            captured: self.captured.skip(self.host.frames),
            ..self
        }
    }

    /// The host is done with the half: what it put there is queued, the oldest
    /// frames making room, and the other half comes next.
    pub open spec fn ended(self) -> WorkerView {
        WorkerView {
            outputs: Seq::new(
                2,
                |pair: int|
                    newest(
                        self.outputs[pair] + self.host.output_block(pair, self.index),
                        4 * self.host.frames,
                    ),
            ),
            index: 1 - self.index,
            position: self.position + self.host.frames,
            ..self
        }
    }
}

impl View for Worker {
    type V = WorkerView;

    closed spec fn view(&self) -> WorkerView {
        WorkerView {
            host: self.host@,
            captured: self.captured@,
            outputs: seq![self.outputs@[0]@, self.outputs@[1]@],
            index: self.index as int,
            position: self.position as int,
        }
    }
}

/// Drops the oldest frames of a FIFO until `limit` are left.
fn keep_newest(fifo: &mut VecDeque<Pair>, limit: usize)
    ensures
        final(fifo)@ == newest(old(fifo)@, limit as int),
{
    let ghost before = fifo@;
    assert(before.skip(0) =~= before);
    while fifo.len() > limit
        invariant
            fifo@.len() <= before.len(),
            before.len() > limit ==> fifo@.len() >= limit,
            before.len() <= limit ==> fifo@.len() == before.len(),
            fifo@ == before.skip(before.len() - fifo@.len()),
        decreases fifo@.len(),
    {
        let ghost now = fifo@;
        let _ = fifo.pop_front();
        assert(now.subrange(1, now.len() as int) =~= before.skip(before.len() - (now.len() - 1)));
    }
}

/// A block of silence.
fn silence(frames: usize) -> (fifo: VecDeque<Pair>)
    ensures
        fifo@ == Seq::new(frames as nat, |i: int| [0i32, 0i32]),
{
    let mut fifo: VecDeque<Pair> = VecDeque::new();
    let mut i: usize = 0;
    while i < frames
        invariant
            i <= frames,
            fifo@ =~= Seq::new(i as nat, |k: int| [0i32, 0i32]),
        decreases frames - i,
    {
        let pair: Pair = [0, 0];
        assert(pair@ =~= [0i32, 0i32]@);
        fifo.push_back(pair);
        i = i + 1;
    }
    fifo
}

impl Worker {
    /// A worker whose render FIFOs hold one block of silence.
    pub fn new(host: Host) -> (worker: Worker)
        requires
            host@.wf(),
        ensures
            worker@ == (WorkerView {
                host: host@,
                captured: seq![],
                outputs: seq![
                    Seq::new(host@.frames as nat, |i: int| [0i32, 0i32]),
                    Seq::new(host@.frames as nat, |i: int| [0i32, 0i32]),
                ],
                index: 0,
                position: 0,
            }),
            worker@.wf(),
    {
        let frames: usize = host.buffer_frames;
        Worker {
            host,
            captured: VecDeque::new(),
            outputs: [silence(frames), silence(frames)],
            index: 0,
            position: 0,
        }
    }

    pub fn host(&self) -> (host: &Host)
        ensures
            host@ == self@.host,
    {
        &self.host
    }

    /// Gives the host side back when streaming ends.
    pub fn into_host(self) -> (host: Host)
        ensures
            host@ == self@.host,
    {
        self.host
    }

    /// The buffers for the host to work on.
    pub fn buffers_mut(&mut self) -> (buffers: &mut Vec<Vec<i32>>)
        ensures
            Seq::new(buffers@.len(), |i: int| buffers@[i]@) == old(self)@.host.buffers,
            final(self)@ == (WorkerView {
                host: HostView {
                    buffers: Seq::new(final(buffers)@.len(), |i: int| final(buffers)@[i]@),
                    ..old(self)@.host
                },
                ..old(self)@
            }),
    {
        &mut self.host.buffers
    }

    /// Frames were captured.
    pub fn capture(&mut self, frames: &[Pair])
        requires
            old(self)@.wf(),
        ensures
            final(self)@ == (WorkerView {
                captured: old(self)@.captured + frames@,
                ..old(self)@
            }),
            final(self)@.wf(),
    {
        let ghost before = self@.captured;
        let mut i: usize = 0;
        assert(before + frames@.subrange(0, 0) =~= before);
        while i < frames.len()
            invariant
                i <= frames.len(),
                self@ == (WorkerView {
                    captured: before + frames@.subrange(0, i as int),
                    ..old(self)@
                }),
            decreases frames.len() - i,
        {
            self.captured.push_back(frames[i]);
            assert((before + frames@.subrange(0, i as int)).push(frames@[i as int]) =~= before
                + frames@.subrange(0, i + 1));
            i = i + 1;
        }
        assert(frames@.subrange(0, i as int) =~= frames@);
    }

    /// Whether a block for the host is complete.
    pub fn is_ready(&self) -> (ready: bool)
        ensures
            ready == (self@.captured.len() >= self@.host.frames),
    {
        self.captured.len() >= self.host.buffer_frames
    }

    /// Puts the next block of captured frames into the host's buffers and
    /// tells what to call the host with. `qpc` and `hz` are the performance
    /// counter and its frequency.
    pub fn begin_switch(&mut self, qpc: i64, hz: i64) -> (switch: Switch)
        requires
            old(self)@.wf(),
            old(self)@.captured.len() >= old(self)@.host.frames,
            qpc >= 0,
            hz != 0,
        ensures
            final(self)@ == old(self)@.begun(),
            final(self)@.wf(),
            switch.index == old(self)@.index,
            switch.position == old(self)@.position,
            switch.now_ns == nanoseconds_spec(qpc as int, hz as int),
    {
        let ghost before = self@;
        let now_ns: u64 = nanoseconds(qpc, hz);
        let frames: usize = self.host.buffer_frames;
        let mut block: Vec<Pair> = Vec::new();
        let mut i: usize = 0;
        assert(before.captured.skip(0) =~= before.captured);
        while i < frames
            invariant
                i <= frames,
                frames == before.host.frames,
                before.captured.len() >= frames,
                block@ =~= before.captured.subrange(0, i as int),
                self@ == (WorkerView { captured: before.captured.skip(i as int), ..before }),
            decreases frames - i,
        {
            let next: Option<Pair> = self.captured.pop_front();
            match next {
                Some(pair) => {
                    block.push(pair);
                },
                None => {},
            }
            assert(before.captured.skip(i as int).subrange(
                1,
                before.captured.len() - i,
            ) =~= before.captured.skip(i + 1));
            i = i + 1;
        }
        let at: usize = if self.index == 0 {
            0
        } else {
            frames
        };
        let ghost middle = self@;
        self.write_input(0, at, &block);
        let ghost first = self@;
        self.write_input(1, at, &block);
        proof {
            assert(self@.host.buffers =~= before.begun().host.buffers) by {
                assert forall|b: int| 0 <= b < before.host.buffers.len() implies self@.host.buffers[b]
                    == before.begun().host.buffers[b] by {
                    let once = with_channel(before.host.buffers[b], at as int, block@, 0);
                    assert(with_channel(once, at as int, block@, 1) =~= with_channel(
                        before.host.buffers[b],
                        at as int,
                        block@,
                        1,
                    ));
                    assert(before.index * before.host.frames == at);
                }
            }
        }
        Switch { index: self.index, position: self.position, now_ns }
    }

    /// Writes one channel of a block into the buffer of input `channel`.
    fn write_input(&mut self, channel: usize, at: usize, block: &Vec<Pair>)
        requires
            old(self)@.wf(),
            channel < 2,
            block.len() == old(self)@.host.frames,
            at + block.len() <= 2 * old(self)@.host.frames,
        ensures
            final(self)@ == (WorkerView {
                host: HostView {
                    buffers: Seq::new(
                        old(self)@.host.buffers.len(),
                        |b: int|
                            if is_buffer(old(self)@.host.inputs[channel as int], b) {
                                with_channel(
                                    old(self)@.host.buffers[b],
                                    at as int,
                                    block@,
                                    channel as int,
                                )
                            } else {
                                old(self)@.host.buffers[b]
                            },
                    ),
                    ..old(self)@.host
                },
                ..old(self)@
            }),
            final(self)@.wf(),
    {
        let ghost before = self@;
        assert(before.host.has_buffer(before.host.inputs[channel as int]));
        match self.host.inputs[channel] {
            Some(index) => {
                assert(before.host.buffers[index as int] == self.host.buffers@[index as int]@);
                write_channel(&mut self.host.buffers[index], at, block, channel);
            },
            None => {},
        }
        proof {
            let expected = Seq::new(
                before.host.buffers.len(),
                |b: int|
                    if is_buffer(before.host.inputs[channel as int], b) {
                        with_channel(before.host.buffers[b], at as int, block@, channel as int)
                    } else {
                        before.host.buffers[b]
                    },
            );
            assert(self@.host.buffers =~= expected);
        }
    }

    /// One sample of the half that the host has just worked on.
    fn read_output(&self, channel: usize, i: usize) -> (sample: i32)
        requires
            self@.host.wf(),
            self@.index == 0 || self@.index == 1,
            channel < 4,
            i < self@.host.frames,
        ensures
            sample == self@.host.output_sample(channel as int, self@.index, i as int),
    {
        assert(self@.host.has_buffer(self@.host.outputs[channel as int]));
        match self.host.outputs[channel] {
            Some(index) => {
                assert(self@.host.buffers[index as int].len() == 2 * self@.host.frames);
                assert(self@.index * self@.host.frames == (if self@.index == 0 {
                    0
                } else {
                    self@.host.frames
                }));
                let at: usize = if self.index == 0 {
                    i
                } else {
                    self.host.buffer_frames + i
                };
                self.host.buffers[index][at]
            },
            None => 0,
        }
    }

    /// Takes what the host put into the half it worked on.
    pub fn end_switch(&mut self)
        requires
            old(self)@.wf(),
            old(self)@.position + old(self)@.host.frames <= u64::MAX,
        ensures
            final(self)@ == old(self)@.ended(),
            final(self)@.wf(),
    {
        let ghost before = self@;
        self.queue_output(0);
        self.queue_output(1);
        self.position = self.position + self.host.buffer_frames as u64;
        self.index = 1 - self.index;
        assert(self@.outputs =~= before.ended().outputs);
    }

    /// Queues output pair `pair` of the half that the host worked on.
    fn queue_output(&mut self, pair: usize)
        requires
            old(self)@.wf(),
            pair < 2,
        ensures
            final(self)@ == (WorkerView {
                outputs: old(self)@.outputs.update(
                    pair as int,
                    newest(
                        old(self)@.outputs[pair as int] + old(self)@.host.output_block(
                            pair as int,
                            old(self)@.index,
                        ),
                        4 * old(self)@.host.frames,
                    ),
                ),
                ..old(self)@
            }),
            final(self)@.wf(),
    {
        let ghost before = self@;
        let frames: usize = self.host.buffer_frames;
        let ghost block = before.host.output_block(pair as int, before.index);
        let mut i: usize = 0;
        assert(before.outputs[pair as int] + block.subrange(0, 0) =~= before.outputs[pair as int]);
        assert(before.outputs.update(pair as int, before.outputs[pair as int]) =~= before.outputs);
        while i < frames
            invariant
                i <= frames,
                frames == before.host.frames,
                before.wf(),
                pair < 2,
                block == before.host.output_block(pair as int, before.index),
                self@ == (WorkerView {
                    outputs: before.outputs.update(
                        pair as int,
                        before.outputs[pair as int] + block.subrange(0, i as int),
                    ),
                    ..before
                }),
            decreases frames - i,
        {
            assert(self@.host == before.host);
            let first: i32 = self.read_output(2 * pair, i);
            let second: i32 = self.read_output(2 * pair + 1, i);
            let frame: Pair = [first, second];
            assert(frame@ =~= block[i as int]@);
            assert(frame == block[i as int]);
            self.outputs[pair].push_back(frame);
            proof {
                let longer = before.outputs[pair as int] + block.subrange(0, i + 1);
                assert((before.outputs[pair as int] + block.subrange(0, i as int)).push(frame)
                    =~= longer);
                assert(self@.outputs =~= before.outputs.update(pair as int, longer));
            }
            i = i + 1;
        }
        assert(block.subrange(0, i as int) =~= block);
        keep_newest(&mut self.outputs[pair], 4 * frames);
        proof {
            let kept = newest(before.outputs[pair as int] + block, 4 * frames);
            assert(self@.outputs =~= before.outputs.update(pair as int, kept));
        }
    }

    /// The next `count` frames for render endpoint `k`, and silence where
    /// there are not that many.
    pub fn feed_render(&mut self, k: usize, count: u32) -> (frames: Vec<Pair>)
        requires
            old(self)@.wf(),
            k < 2,
        ensures
            frames@ == fed(old(self)@.outputs[k as int], count as nat),
            final(self)@ == (WorkerView {
                outputs: old(self)@.outputs.update(
                    k as int,
                    left(old(self)@.outputs[k as int], count as nat),
                ),
                ..old(self)@
            }),
            final(self)@.wf(),
    {
        let ghost before = self@;
        let ghost fifo = before.outputs[k as int];
        let mut frames: Vec<Pair> = Vec::new();
        let mut i: u32 = 0;
        assert(left(fifo, 0) =~= fifo);
        assert(before.outputs.update(k as int, fifo) =~= before.outputs);
        while i < count
            invariant
                i <= count,
                k < 2,
                before.wf(),
                fifo == before.outputs[k as int],
                frames@ =~= fed(fifo, i as nat),
                self@ == (WorkerView {
                    outputs: before.outputs.update(k as int, left(fifo, i as nat)),
                    ..before
                }),
            decreases count - i,
        {
            assert(self.outputs@[k as int]@ == self@.outputs[k as int]);
            let next: Option<Pair> = self.outputs[k].pop_front();
            let pair: Pair = match next {
                Some(pair) => pair,
                None => [0, 0],
            };
            proof {
                if next is None {
                    assert(pair@ =~= [0i32, 0i32]@);
                }
                assert(self@.outputs[k as int] =~= left(fifo, (i + 1) as nat));
                assert(self@.outputs =~= before.outputs.update(
                    k as int,
                    left(fifo, (i + 1) as nat),
                ));
            }
            frames.push(pair);
            i = i + 1;
        }
        frames
    }
}

/// Taking frames from a FIFO in two parts gives what one part would.
pub proof fn law_feeding_is_continuous(fifo: Seq<Pair>, first: nat, second: nat)
    ensures
        fed(fifo, first) + fed(left(fifo, first), second) == fed(fifo, first + second),
        left(left(fifo, first), second) == left(fifo, first + second),
{
    assert(fed(fifo, first) + fed(left(fifo, first), second) =~= fed(fifo, first + second));
    assert(left(left(fifo, first), second) =~= left(fifo, first + second));
}

/// What the host puts out is played behind what is queued, and nothing of it
/// is lost while no more than three blocks are.
pub proof fn law_output_follows_the_queue(worker: WorkerView, pair: int)
    requires
        worker.wf(),
        0 <= pair < 2,
        worker.outputs[pair].len() <= 3 * worker.host.frames,
    ensures
        fed(
            worker.ended().outputs[pair],
            (worker.outputs[pair].len() + worker.host.frames) as nat,
        ) == worker.outputs[pair] + worker.host.output_block(pair, worker.index),
{
    let queue = worker.outputs[pair] + worker.host.output_block(pair, worker.index);
    assert(fed(
        worker.ended().outputs[pair],
        (worker.outputs[pair].len() + worker.host.frames) as nat,
    ) =~= queue);
}

/// A host finds the captured frames, in order, in the half that it is told to
/// work on, and its other buffers as it left them.
pub proof fn law_host_finds_captured_frames(worker: WorkerView, channel: int, buffer: int)
    requires
        worker.wf(),
        worker.captured.len() >= worker.host.frames,
        0 <= channel < 2,
        0 <= buffer < worker.host.buffers.len(),
    ensures
        is_buffer(worker.host.inputs[channel], buffer) && !is_buffer(
            worker.host.inputs[1 - channel],
            buffer,
        ) ==> forall|i: int|
            0 <= i < worker.host.frames
                ==> #[trigger] worker.begun().host.buffers[buffer][worker.index * worker.host.frames
                + i] == worker.captured[i]@[channel],
        !is_buffer(worker.host.inputs[0], buffer) && !is_buffer(worker.host.inputs[1], buffer)
            ==> worker.begun().host.buffers[buffer] == worker.host.buffers[buffer],
{
    assert(worker.host.buffers[buffer].len() == 2 * worker.host.frames);
    assert(worker.index * worker.host.frames == (if worker.index == 0 {
        0
    } else {
        worker.host.frames
    }));
}

/// What the host put into the half it worked on is queued in order behind what
/// was queued before: frame `i` of a pair is sample `i` of that half of the
/// buffers of the pair's two channels, and silence for a channel without one.
/// A queue holds four blocks; where there is no room, its oldest frames go.
pub proof fn law_outputs_are_queued_in_order(worker: WorkerView, pair: int, i: int, j: int)
    requires
        worker.wf(),
        0 <= pair < 2,
        0 <= i < worker.host.frames,
    ensures
        ({
            let host = worker.host;
            let queue = worker.outputs[pair];
            let after = worker.ended().outputs[pair];
            let start = after.len() - host.frames;
            let at = worker.index * host.frames + i;
            let first = host.outputs[2 * pair];
            let second = host.outputs[2 * pair + 1];
            &&& queue.len() + host.frames <= 4 * host.frames ==> after.len() == queue.len()
                + host.frames
            &&& queue.len() + host.frames > 4 * host.frames ==> after.len() == 4 * host.frames
            &&& first matches Some(buffer) ==> after[start + i]@[0]
                == host.buffers[buffer as int][at]
            &&& second matches Some(buffer) ==> after[start + i]@[1]
                == host.buffers[buffer as int][at]
            &&& first is None ==> after[start + i]@[0] == 0
            &&& second is None ==> after[start + i]@[1] == 0
            &&& 0 <= j < queue.len() && queue.len() - j <= start ==> after[start - (queue.len()
                - j)] == queue[j]
        }),
{
}

/// The host works on the two halves in turn, its position grows by a block each
/// time, and ending a switch changes neither its buffers nor what is captured.
pub proof fn law_halves_take_turns(worker: WorkerView)
    requires
        worker.wf(),
    ensures
        worker.index == 0 ==> worker.ended().index == 1,
        worker.index == 1 ==> worker.ended().index == 0,
        worker.ended().position == worker.position + worker.host.frames,
        worker.ended().host == worker.host,
        worker.ended().captured == worker.captured,
        worker.begun().index == worker.index,
        worker.begun().position == worker.position,
        worker.begun().outputs == worker.outputs,
{
}

/// Beginning a switch hands a block of captured frames over and keeps the later
/// ones. Captured sample `i` of `channel` is sample `i` of the half that the
/// host works on, and the other half of the buffer is as it was.
pub proof fn law_captured_blocks_are_handed_over(
    worker: WorkerView,
    channel: int,
    buffer: usize,
    i: int,
    k: int,
)
    requires
        worker.wf(),
        worker.captured.len() >= worker.host.frames,
        0 <= channel < 2,
        worker.host.inputs[channel] == Some(buffer),
        worker.host.inputs[1 - channel] != Some(buffer),
        0 <= i < worker.host.frames,
    ensures
        ({
            let before = worker.host.buffers[buffer as int];
            let after = worker.begun().host.buffers[buffer as int];
            let frames = worker.host.frames;
            &&& after.len() == before.len()
            &&& after[worker.index * frames + i] == worker.captured[i]@[channel]
            &&& after[(1 - worker.index) * frames + i] == before[(1 - worker.index) * frames + i]
            &&& worker.begun().captured.len() == worker.captured.len() - frames
            &&& frames <= k < worker.captured.len() ==> worker.begun().captured[k - frames]
                == worker.captured[k]
            &&& worker.begun().host.inputs == worker.host.inputs
            &&& worker.begun().host.outputs == worker.host.outputs
            &&& worker.begun().host.frames == frames
            &&& worker.begun().host.rate == worker.host.rate
        }),
{
    let frames = worker.host.frames;
    assert(worker.host.has_buffer(worker.host.inputs[channel]));
    assert(worker.host.buffers[buffer as int].len() == 2 * frames);
    assert(worker.index * frames == (if worker.index == 0 {
        0
    } else {
        frames
    }));
    let index = worker.index;
    assert((1 - index) * frames == frames - index * frames) by (nonlinear_arith);
}

/// A FIFO gives its frames out in order and keeps those that were not asked
/// for; frames that it does not have are silent.
pub proof fn law_feeding_is_in_order(fifo: Seq<Pair>, count: nat, i: int)
    requires
        0 <= i,
    ensures
        fed(fifo, count).len() == count,
        i < count && i < fifo.len() ==> fed(fifo, count)[i] == fifo[i],
        fifo.len() <= i < count ==> fed(fifo, count)[i]@[0] == 0 && fed(fifo, count)[i]@[1] == 0,
        count <= fifo.len() ==> left(fifo, count).len() == fifo.len() - count,
        count > fifo.len() ==> left(fifo, count).len() == 0,
        count + i < fifo.len() ==> left(fifo, count)[i] == fifo[count + i],
{
}

/// A render endpoint that takes all that is queued gets, behind what was queued
/// before, the samples that the host put into the half it worked on.
pub proof fn law_endpoints_get_what_the_host_put_out(
    worker: WorkerView,
    pair: int,
    channel: int,
    buffer: usize,
    i: int,
)
    requires
        worker.wf(),
        0 <= pair < 2,
        0 <= channel < 2,
        worker.host.outputs[2 * pair + channel] == Some(buffer),
        worker.outputs[pair].len() <= 3 * worker.host.frames,
        0 <= i < worker.host.frames,
    ensures
        fed(
            worker.ended().outputs[pair],
            (worker.outputs[pair].len() + worker.host.frames) as nat,
        )[worker.outputs[pair].len() + i]@[channel]
            == worker.host.buffers[buffer as int][worker.index * worker.host.frames + i],
{
}

/// A period in units of 100 ns is nearest to the time of its frames.
pub proof fn law_periods_are_rounded(frames: int, rate: int)
    requires
        frames >= 0,
        rate > 0,
    ensures
        2 * (period_spec(frames, rate) * rate) <= 2 * (frames * 10_000_000) + rate,
        2 * (frames * 10_000_000) < 2 * (period_spec(frames, rate) * rate) + rate + 1,
{
    let sum = frames * 10_000_000 + rate / 2;
    let period = period_spec(frames, rate);
    assert(period * rate <= sum < period * rate + rate) by (nonlinear_arith)
        requires
            period == sum / rate,
            rate > 0,
    ;
}

/// Nanoseconds are the ticks in units of a second by 10^9, rounded down, as long
/// as they fit in 64 bits; a counter without a forward rate gives zero.
pub proof fn law_nanoseconds_are_rounded_down(qpc: int, hz: int, ns: int)
    requires
        qpc >= 0,
    ensures
        hz > 0 && ns < 0x1_0000_0000_0000_0000 && ns * hz <= qpc * 1_000_000_000 < ns * hz + hz && 0
            <= ns ==> nanoseconds_spec(qpc, hz) == ns,
        hz > 0 ==> 0 <= nanoseconds_spec(qpc, hz) < 0x1_0000_0000_0000_0000,
        hz < 0 ==> nanoseconds_spec(qpc, hz) == 0,
{
    if hz > 0 && 0 <= ns < 0x1_0000_0000_0000_0000 && ns * hz <= qpc * 1_000_000_000 < ns * hz
        + hz {
        let ticks = qpc * 1_000_000_000;
        assert(ticks / hz == ns) by (nonlinear_arith)
            requires
                hz > 0,
                ns * hz <= ticks < ns * hz + hz,
        ;
    }
}

/// The endpoints are opened for two channels of 24 bits in four bytes, of which
/// a second takes eight bytes per frame.
pub proof fn law_streams_are_stereo_24_in_32(rate: u32)
    requires
        rate * 8 <= u32::MAX,
    ensures
        ({
            let format = stream_format_spec(rate);
            &&& format.format_tag == 65534
            &&& format.channels == 2
            &&& format.samples_per_sec == rate
            &&& format.avg_bytes_per_sec == 8 * rate
            &&& format.block_align == 8
            &&& format.bits_per_sample == 32
            &&& format.valid_bits_per_sample == 24
            &&& format.cb_size == 22
            &&& format.channel_mask == 3
        }),
{
}

/// The endpoint found for a slot is its last one, and one is found where there
/// is any.
pub proof fn law_last_endpoints_are_found(paths: Seq<Option<String>>, slot: Slot)
    ensures
        match last_endpoint(paths, slot) {
            Some(place) => {
                &&& 0 <= place < paths.len()
                &&& paths[place] matches Some(path) && endpoint_slot_spec(path@) == Some(slot)
                &&& forall|later: int|
                    place < later < paths.len() ==> (#[trigger] paths[later] matches Some(path)
                        ==> endpoint_slot_spec(path@) != Some(slot))
            },
            None => forall|any: int|
                0 <= any < paths.len() ==> (#[trigger] paths[any] matches Some(path)
                    ==> endpoint_slot_spec(path@) != Some(slot)),
        },
    decreases paths.len(),
{
    if paths.len() > 0 {
        let before = paths.drop_last();
        law_last_endpoints_are_found(before, slot);
        assert forall|i: int| 0 <= i < before.len() implies #[trigger] paths[i] == before[i] by {}
    }
}

/// The filter behind an endpoint is told by the device's numbers anywhere in its
/// path and by the circuit's name at its end, in capitals or not; a path without
/// either is no endpoint of the device.
pub proof fn law_endpoints_are_told_by_their_path(
    path: Seq<char>,
    head: Seq<char>,
    middle: Seq<char>,
)
    ensures
        lower(path) == lower(head) + "vid_17cc&pid_0815"@ + lower(middle) + "\\output12"@
            ==> endpoint_slot_spec(path) == Some(Slot::Output12),
        lower(path) == lower(head) + "vid_17cc&pid_0815"@ + lower(middle) + "\\output34"@
            ==> endpoint_slot_spec(path) == Some(Slot::Output34),
        lower(path) == lower(head) + "vid_17cc&pid_0815"@ + lower(middle) + "\\input12"@
            ==> endpoint_slot_spec(path) == Some(Slot::Input12),
        endpoint_slot_spec(path) is Some ==> holds(lower(path), "vid_17cc&pid_0815"@) && (ends_with(
            lower(path),
            "\\output12"@,
        ) || ends_with(lower(path), "\\output34"@) || ends_with(lower(path), "\\input12"@)),
{
    reveal_strlit("vid_17cc&pid_0815");
    reveal_strlit("\\output12");
    reveal_strlit("\\output34");
    reveal_strlit("\\input12");
    let text = lower(path);
    lemma_told(text, lower(head), lower(middle), "\\output12"@);
    lemma_told(text, lower(head), lower(middle), "\\output34"@);
    lemma_told(text, lower(head), lower(middle), "\\input12"@);
    let last = text.len() - 1;
    if text.len() >= 9 {
        if ends_with(text, "\\output12"@) {
            assert(text[last] == text.subrange(text.len() - 9, text.len() as int)[8]);
            assert(text[last - 7] == text.subrange(text.len() - 9, text.len() as int)[1]);
        }
        if ends_with(text, "\\output34"@) {
            assert(text[last] == text.subrange(text.len() - 9, text.len() as int)[8]);
        }
    }
    if ends_with(text, "\\input12"@) {
        assert(text[last] == text.subrange(text.len() - 8, text.len() as int)[7]);
        assert(text[last - 7] == text.subrange(text.len() - 8, text.len() as int)[0]);
    }
}

/// The parts of a path are found in it.
proof fn lemma_told(text: Seq<char>, head: Seq<char>, middle: Seq<char>, name: Seq<char>)
    ensures
        text == head + USB_VID_PID@ + middle + name ==> holds(text, USB_VID_PID@) && ends_with(
            text,
            name,
        ),
{
    if text == head + USB_VID_PID@ + middle + name {
        let at = head.len() as int;
        assert(text.subrange(at, at + USB_VID_PID@.len()) =~= USB_VID_PID@);
        assert(holds_at(text, at, USB_VID_PID@));
        assert(text.subrange(text.len() - name.len(), text.len() as int) =~= name);
    }
}

/// The wait's outcome is the number of the event: stop, capture, and one for each
/// render endpoint; running out of time is no event, and anything else stops.
pub proof fn law_events_by_number(wait: u32, event: Event)
    requires
        call_ensures(self::event, (wait,), event),
    ensures
        event == Event::Wait <==> wait == 258,
        event == Event::Capture <==> wait == 1,
        event == Event::Render(0) <==> wait == 2,
        event == Event::Render(1) <==> wait == 3,
        event == Event::Stop <==> wait != 258 && wait != 1 && wait != 2 && wait != 3,
{
}

/// The time information of a switch has the words of its time and position and
/// says that time, position and rate are valid.
pub proof fn law_switch_times_are_whole(switch: &Switch, rate: u32, time: SwitchTime)
    requires
        call_ensures(Switch::time, (switch, rate), time),
    ensures
        time.system_time.hi * 4294967296 + time.system_time.lo == switch.now_ns,
        time.sample_position.hi * 4294967296 + time.sample_position.lo == switch.position,
        time.sample_rate == rate,
        time.flags == 1 + 2 + 4,
{
}

/// Only the refusal of a buffer size leads to another attempt.
pub proof fn law_sizes_are_aligned_once(code: i32, step: OpenStep)
    requires
        call_ensures(open_step, (Err::<(), i32>(code),), step),
    ensures
        step == OpenStep::Align <==> code == 0x8889_0019 - 0x1_0000_0000,
        step != OpenStep::Align ==> step == OpenStep::Failed(code),
{
}

/// Captured frames are taken behind those before, a block is ready where there
/// are as many as a half holds, and a new worker plays a block of silence first.
pub proof fn law_blocks_are_ready_when_full(
    host: Host,
    made: Worker,
    worker: &Worker,
    ready: bool,
    frames: &[Pair],
    i: int,
)
    requires
        host@.wf(),
        call_ensures(Worker::new, (host,), made),
        call_ensures(Worker::is_ready, (worker,), ready),
        0 <= i,
    ensures
        made@.host == host@,
        made@.index == 0,
        made@.position == 0,
        made@.captured.len() == 0,
        made@.outputs[0].len() == host@.frames,
        made@.outputs[1].len() == host@.frames,
        i < host@.frames ==> made@.outputs[0][i]@[0] == 0 && made@.outputs[0][i]@[1] == 0,
        i < host@.frames ==> made@.outputs[1][i]@[0] == 0 && made@.outputs[1][i]@[1] == 0,
        ready <==> worker@.captured.len() >= worker@.host.frames,
        forall|filled: &mut Worker| #[trigger]
            call_ensures(Worker::capture, (filled, frames), ()) ==> {
                let before = (*filled)@;
                let after = (*final(filled))@;
                &&& after.captured.len() == before.captured.len() + frames@.len()
                &&& i < before.captured.len() ==> after.captured[i] == before.captured[i]
                &&& i < frames@.len() ==> after.captured[before.captured.len() + i] == frames@[i]
                &&& after.outputs == before.outputs
                &&& after.host == before.host
            },
{
}

} // verus!
