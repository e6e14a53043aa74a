//! Isochronous streaming with implicit feedback: the device is the clock
//! master, so every capture transfer that completes is answered by a playback
//! transfer whose packets have the same lengths.

use vstd::prelude::*;
use vstd::slice::slice_subrange;

use crate::audio::{lemma_captured, lemma_rendered, Audio, AudioView, Mix, SlotCompletion};
use crate::mode2::{
    captured, check_error_count, decode_capture, frames_in_spec, playback_packet,
    rejection_reported, silent_tail, tail_after, CaptureStatus, Frame, PlaybackEncoder, FRAME_BYTES,
};
use crate::proto::{SampleRate, MAX_PACKET_SIZE, MICROFRAMES_PER_SECOND};
use crate::status::NtStatus;

verus! {

/// One millisecond of high-speed microframes, the least a USB request may
/// carry, which bounds the smallest ASIO buffer. USB passthrough in a QEMU
/// guest loses capture packets at this size and reports them as successful
/// and full-sized; it needed 32 packets.
pub const PACKETS_PER_TRANSFER: usize = 8;

pub const TRANSFERS: usize = 16;

pub const TRANSFER_BYTES: usize = 4096;

pub const USBD_STATUS_SUCCESS: i32 = 0;

/// Counters of a stream; they wrap.
#[derive(Clone, Copy, Debug, PartialEq, Eq, Structural)]
pub struct Stats {
    pub capture_transfers: u32,
    pub capture_failures: u32,
    pub frames: u32,
    pub check_errors: u32,
    pub rejected_packets: u32,
    pub playback_transfers: u32,
    pub playback_failures: u32,
    pub playback_overruns: u32,
    pub invalid_packets: u32,
}

impl Stats {
    pub open spec fn zero() -> Stats {
        Stats {
            capture_transfers: 0,
            capture_failures: 0,
            frames: 0,
            check_errors: 0,
            rejected_packets: 0,
            playback_transfers: 0,
            playback_failures: 0,
            playback_overruns: 0,
            invalid_packets: 0,
        }
    }

    /// The counters in the order in which they are recorded.
    pub open spec fn counters(self) -> Seq<u32> {
        seq![
            self.capture_transfers,
            self.capture_failures,
            self.frames,
            self.check_errors,
            self.rejected_packets,
            self.playback_transfers,
            self.playback_failures,
            self.playback_overruns,
            self.invalid_packets,
        ]
    }

    pub fn snapshot(&self) -> (counters: [u32; 9])
        ensures
            counters@ == self.counters(),
    {
        let counters: [u32; 9] = [
            self.capture_transfers,
            self.capture_failures,
            self.frames,
            self.check_errors,
            self.rejected_packets,
            self.playback_transfers,
            self.playback_failures,
            self.playback_overruns,
            self.invalid_packets,
        ];
        assert(counters@ =~= self.counters());
        counters
    }
}

impl Default for Stats {
    fn default() -> (stats: Stats)
        ensures
            stats == Stats::zero(),
    {
        Stats {
            capture_transfers: 0,
            capture_failures: 0,
            frames: 0,
            check_errors: 0,
            rejected_packets: 0,
            playback_transfers: 0,
            playback_failures: 0,
            playback_overruns: 0,
            invalid_packets: 0,
        }
    }
}

/// A packet of a capture transfer: where its bytes are and how it went.
#[derive(Clone, Copy, Debug, PartialEq, Eq, Structural)]
pub struct IsoPacket {
    pub offset: u32,
    pub length: u32,
    pub status: i32,
}

/// A packet of a playback transfer.
#[derive(Clone, Copy, Debug, PartialEq, Eq, Structural)]
pub struct OutPacket {
    pub offset: u32,
    pub length: u32,
}

/// A playback transfer to send.
#[derive(Debug)]
pub struct Playback {
    /// Which of the playback transfers.
    pub transfer: usize,
    pub packets: Vec<OutPacket>,
    pub data: Vec<u8>,
}

/// What is to be done about a completed capture transfer.
#[derive(Debug)]
pub struct Answer {
    pub playback: Option<Playback>,
    /// Packets of streams that were finished, in order.
    pub completions: Vec<SlotCompletion>,
}

#[derive(Debug)]
pub struct Engine {
    rate_hz: u32,
    max_packet_bytes: usize,
    qpc_per_microframe: u64,
    encoder: PlaybackEncoder,
    nominal_remainder: u32,
    running: bool,
    in_flight: u32,
    busy: Vec<bool>,
    stats: Stats,
}

/// An engine as a value.
#[verifier::ext_equal]
pub struct EngineView {
    pub rate_hz: int,
    pub max_packet_bytes: int,
    pub qpc_per_microframe: int,
    /// What the last playback packet left over.
    pub tail: Seq<Seq<u8>>,
    /// Remainder, in frames times 8000, of the nominal frames per microframe.
    pub remainder: int,
    pub running: bool,
    /// Transfers whose completion is awaited.
    pub in_flight: int,
    /// Which playback transfers are in use.
    pub busy: Seq<bool>,
    pub stats: Stats,
}

impl EngineView {
    pub open spec fn wf(self) -> bool {
        &&& 0 <= self.rate_hz <= 192000
        &&& 0 <= self.max_packet_bytes <= MAX_PACKET_SIZE
        &&& 0 <= self.qpc_per_microframe <= u64::MAX
        &&& 0 <= self.remainder < 8000
        &&& self.busy.len() == TRANSFERS
    }
}

/// The first free transfer at or after `from`.
pub open spec fn first_free(busy: Seq<bool>, from: int) -> Option<int>
    decreases busy.len() - from,
{
    if from < 0 || from >= busy.len() {
        None
    } else if !busy[from] {
        Some(from)
    } else {
        first_free(busy, from + 1)
    }
}

/// Frames the device consumed in a microframe whose capture packet was lost.
pub open spec fn nominal_frames(remainder: int, rate_hz: int) -> int {
    (remainder + rate_hz) / 8000
}

pub open spec fn nominal_remainder(remainder: int, rate_hz: int) -> int {
    (remainder + rate_hz) % 8000
}

/// Whether a capture packet came through. Some hosts report lost packets as
/// successful and full-sized.
pub open spec fn is_valid(packet: IsoPacket, max_packet_bytes: int) -> bool {
    &&& packet.status == USBD_STATUS_SUCCESS
    &&& packet.length <= max_packet_bytes
    &&& packet.length % 16 == 0
}

/// The bytes of a packet that came through, none of a lost one.
pub open spec fn packet_data(packet: IsoPacket, max_packet_bytes: int, buffer: Seq<u8>) -> Seq<u8> {
    if is_valid(packet, max_packet_bytes) {
        buffer.subrange(packet.offset as int, packet.offset + packet.length)
    } else {
        seq![]
    }
}

/// How many frames a packet stands for: a lost packet still took device time.
pub open spec fn frame_count(
    packet: IsoPacket,
    max_packet_bytes: int,
    remainder: int,
    rate_hz: int,
) -> int {
    if is_valid(packet, max_packet_bytes) {
        frames_in_spec(packet.length as int)
    } else {
        nominal_frames(remainder, rate_hz)
    }
}

/// Whether what a packet carried can be used.
pub open spec fn is_clean(packet: IsoPacket, max_packet_bytes: int, buffer: Seq<u8>) -> bool {
    let data = packet_data(packet, max_packet_bytes, buffer);
    is_valid(packet, max_packet_bytes) && check_error_count(data, (data.len() / 16 * 2) as nat) == 0
}

/// Frame `index` of inputs 1/2 in a packet: silence where it cannot be used.
pub open spec fn input_frame(data: Seq<u8>, clean: bool, index: int) -> (int, int) {
    if clean {
        (captured(data, index, 0), captured(data, index, 1))
    } else {
        (0, 0)
    }
}

/// `count` frames of the inputs were delivered.
pub open spec fn after_captures(mix: Mix, data: Seq<u8>, clean: bool, count: nat, qpc: u64) -> Mix
    decreases count,
{
    if count == 0 {
        mix
    } else {
        let frame = input_frame(data, clean, count - 1);
        after_captures(mix, data, clean, (count - 1) as nat, qpc).captured(frame.0, frame.1, qpc)
    }
}

/// `count` frames were played.
pub open spec fn after_renders(mix: Mix, count: nat, qpc: u64) -> Mix
    decreases count,
{
    if count == 0 {
        mix
    } else {
        after_renders(mix, (count - 1) as nat, qpc).rendered(qpc)
    }
}

/// The next `count` frames to play.
pub open spec fn next_frames(mix: Mix, count: nat, qpc: u64) -> Seq<Frame> {
    Seq::new(count, |k: int| after_renders(mix, k as nat, qpc).audio.next_frame())
}

/// What a packet adds to the counters.
pub open spec fn count_packet(
    stats: Stats,
    packet: IsoPacket,
    max_packet_bytes: int,
    buffer: Seq<u8>,
) -> Stats {
    let data = packet_data(packet, max_packet_bytes, buffer);
    let blocks = (data.len() / 16 * 2) as nat;
    Stats {
        invalid_packets: if is_valid(packet, max_packet_bytes) {
            stats.invalid_packets
        } else {
            stats.invalid_packets.wrapping_add(1)
        },
        frames: stats.frames.wrapping_add((data.len() / 16) as u32),
        check_errors: stats.check_errors.wrapping_add(check_error_count(data, blocks) as u32),
        rejected_packets: if rejection_reported(data, blocks as int) {
            stats.rejected_packets.wrapping_add(1)
        } else {
            stats.rejected_packets
        },
        ..stats
    }
}

/// How far a capture transfer has been answered.
#[verifier::ext_equal]
pub struct Pass {
    pub mix: Mix,
    pub tail: Seq<Seq<u8>>,
    pub remainder: int,
    pub stats: Stats,
    pub packets: Seq<OutPacket>,
    pub data: Seq<u8>,
}

impl Pass {
    /// One more packet of the capture transfer was answered, by playback too
    /// if `playing`.
    pub open spec fn after_packet(
        self,
        engine: EngineView,
        packet: IsoPacket,
        buffer: Seq<u8>,
        qpc: u64,
        playing: bool,
    ) -> Pass {
        let max = engine.max_packet_bytes;
        let data = packet_data(packet, max, buffer);
        let count = frame_count(packet, max, self.remainder, engine.rate_hz) as nat;
        let mix = after_captures(self.mix, data, is_clean(packet, max, buffer), count, qpc);
        let heard = Pass {
            mix,
            remainder: if is_valid(packet, max) {
                self.remainder
            } else {
                nominal_remainder(self.remainder, engine.rate_hz)
            },
            stats: count_packet(self.stats, packet, max, buffer),
            ..self
        };
        if playing {
            let frames = next_frames(mix, count, qpc);
            Pass {
                mix: after_renders(mix, count, qpc),
                tail: tail_after(self.tail, frames),
                packets: self.packets.push(
                    OutPacket { offset: self.data.len() as u32, length: (16 * count) as u32 },
                ),
                data: self.data + playback_packet(self.tail, frames),
                ..heard
            }
        } else {
            heard
        }
    }
}

/// When packet `index` of a transfer that ended at `completed` ended: each
/// packet ended one microframe before the next.
pub open spec fn packet_time(engine: EngineView, completed: u64, index: int) -> u64 {
    (completed - (PACKETS_PER_TRANSFER - 1 - index) * engine.qpc_per_microframe) as u64
}

/// The first `count` packets of a capture transfer were answered.
pub open spec fn answered(
    start: Pass,
    engine: EngineView,
    packets: Seq<IsoPacket>,
    buffer: Seq<u8>,
    completed: u64,
    playing: bool,
    count: nat,
) -> Pass
    decreases count,
{
    if count == 0 {
        start
    } else {
        answered(start, engine, packets, buffer, completed, playing, (count - 1) as nat).after_packet(
            engine,
            packets[count - 1],
            buffer,
            packet_time(engine, completed, count - 1),
            playing,
        )
    }
}

/// The state in which an engine begins to answer a capture transfer.
pub open spec fn pass_start(engine: EngineView, audio: AudioView) -> Pass {
    Pass {
        mix: Mix { audio, completions: seq![] },
        tail: engine.tail,
        remainder: engine.remainder,
        stats: if first_free(engine.busy, 0) is Some {
            engine.stats
        } else {
            Stats { playback_overruns: engine.stats.playback_overruns.wrapping_add(1), ..engine.stats }
        },
        packets: seq![],
        data: seq![],
    }
}

/// The answer to a whole capture transfer.
pub open spec fn pass_end(
    engine: EngineView,
    audio: AudioView,
    packets: Seq<IsoPacket>,
    buffer: Seq<u8>,
    completed: u64,
) -> Pass {
    answered(
        pass_start(engine, audio),
        engine,
        packets,
        buffer,
        completed,
        first_free(engine.busy, 0) is Some,
        PACKETS_PER_TRANSFER as nat,
    )
}

/// Whether an answer is sent: some playback transfer is free and there is
/// something to play.
pub open spec fn is_sent(engine: EngineView, end: Pass) -> bool {
    first_free(engine.busy, 0) is Some && end.data.len() > 0
}

impl EngineView {
    pub open spec fn after_answer(self, end: Pass) -> EngineView {
        EngineView {
            tail: end.tail,
            remainder: end.remainder,
            stats: end.stats,
            busy: if is_sent(self, end) {
                self.busy.update(first_free(self.busy, 0)->0, true)
            } else {
                self.busy
            },
            ..self
        }
    }
}

pub proof fn lemma_first_free(busy: Seq<bool>, from: int)
    requires
        0 <= from,
    ensures
        match first_free(busy, from) {
            Some(index) => from <= index < busy.len() && !busy[index],
            None => forall|i: int| from <= i < busy.len() ==> busy[i],
        },
    decreases busy.len() - from,
{
    if from < busy.len() && busy[from] {
        lemma_first_free(busy, from + 1);
    }
}

proof fn lemma_check_errors_bound(data: Seq<u8>, blocks: nat)
    ensures
        check_error_count(data, blocks) <= 2 * blocks,
    decreases blocks,
{
    if blocks > 0 {
        lemma_check_errors_bound(data, (blocks - 1) as nat);
    }
}

/// A packet stands for no more frames than fit in one.
proof fn lemma_frame_count_bound(packet: IsoPacket, engine: EngineView, remainder: int)
    requires
        engine.wf(),
        0 <= remainder < 8000,
    ensures
        0 <= frame_count(packet, engine.max_packet_bytes, remainder, engine.rate_hz) <= 32,
        0 <= nominal_remainder(remainder, engine.rate_hz) < 8000,
{
}

impl View for Engine {
    type V = EngineView;

    closed spec fn view(&self) -> EngineView {
        EngineView {
            rate_hz: self.rate_hz as int,
            max_packet_bytes: self.max_packet_bytes as int,
            qpc_per_microframe: self.qpc_per_microframe as int,
            tail: self.encoder@,
            remainder: self.nominal_remainder as int,
            running: self.running,
            in_flight: self.in_flight as int,
            busy: self.busy@,
            stats: self.stats,
        }
    }
}

/// Delivers `count` frames of the inputs from what was decoded of a packet.
fn capture_frames(
    audio: &mut Audio,
    completions: &mut Vec<SlotCompletion>,
    decoded: &Vec<Frame>,
    clean: bool,
    count: usize,
    qpc: u64,
    Ghost(data): Ghost<Seq<u8>>,
)
    requires
        old(audio)@.wf(),
        old(audio)@.has_room(count as int),
        clean ==> decoded.len() == count,
        forall|n: int, c: int|
            0 <= n < decoded.len() && 0 <= c < 4 ==> #[trigger] decoded@[n]@[c] == captured(data, n, c),
    ensures
        final(audio)@.wf(),
        forall|frames: int|
            frames >= 0 && old(audio)@.has_room(frames + count)
                ==> #[trigger] final(audio)@.has_room(frames),
        (Mix { audio: final(audio)@, completions: final(completions)@ }) == after_captures(
            Mix { audio: old(audio)@, completions: old(completions)@ },
            data,
            clean,
            count as nat,
            qpc,
        ),
{
    let ghost start = Mix { audio: audio@, completions: completions@ };
    let mut n: usize = 0;
    while n < count
        invariant
            n <= count,
            audio@.wf(),
            start.audio.has_room(count as int),
            start.audio == old(audio)@,
            clean ==> decoded.len() == count,
            forall|i: int, c: int|
                0 <= i < decoded.len() && 0 <= c < 4 ==> #[trigger] decoded@[i]@[c] == captured(
                    data,
                    i,
                    c,
                ),
            forall|frames: int|
                frames >= 0 && start.audio.has_room(frames + n) ==> #[trigger] audio@.has_room(frames),
            (Mix { audio: audio@, completions: completions@ }) == after_captures(
                start,
                data,
                clean,
                n as nat,
                qpc,
            ),
        decreases count - n,
    {
        let samples: [i32; 2] = if clean {
            assert(decoded@[n as int]@[0] == captured(data, n as int, 0));
            assert(decoded@[n as int]@[1] == captured(data, n as int, 1));
            [decoded[n][0], decoded[n][1]]
        } else {
            [0, 0]
        };
        let ghost before = Mix { audio: audio@, completions: completions@ };
        proof {
            assert(start.audio.has_room((count - n) + n));
            assert(audio@.has_room(count - n));
            assert(audio@.has_room(1));
            lemma_captured(before, samples[0] as int, samples[1] as int, qpc);
        }
        audio.capture(samples, qpc, completions);
        proof {
            let after = before.captured(samples[0] as int, samples[1] as int, qpc);
            assert forall|frames: int|
                frames >= 0 && start.audio.has_room(frames + (n + 1)) implies #[trigger] audio@.has_room(
                frames,
            ) by {
                assert(start.audio.has_room((frames + 1) + n));
                assert(before.audio.has_room(frames + 1));
                assert(after.audio.has_room(frames));
            }
        }
        n = n + 1;
    }
}

/// The next `count` frames to play.
fn render_frames(
    audio: &mut Audio,
    completions: &mut Vec<SlotCompletion>,
    count: usize,
    qpc: u64,
) -> (frames: Vec<Frame>)
    requires
        old(audio)@.wf(),
        old(audio)@.has_room(count as int),
    ensures
        final(audio)@.wf(),
        forall|frames: int|
            frames >= 0 && old(audio)@.has_room(frames + count)
                ==> #[trigger] final(audio)@.has_room(frames),
        (Mix { audio: final(audio)@, completions: final(completions)@ }) == after_renders(
            Mix { audio: old(audio)@, completions: old(completions)@ },
            count as nat,
            qpc,
        ),
        frames@ == next_frames(
            Mix { audio: old(audio)@, completions: old(completions)@ },
            count as nat,
            qpc,
        ),
{
    let ghost start = Mix { audio: audio@, completions: completions@ };
    let mut frames: Vec<Frame> = Vec::new();
    let mut n: usize = 0;
    while n < count
        invariant
            n <= count,
            audio@.wf(),
            start.audio.has_room(count as int),
            start.audio == old(audio)@,
            forall|frames: int|
                frames >= 0 && start.audio.has_room(frames + n) ==> #[trigger] audio@.has_room(frames),
            (Mix { audio: audio@, completions: completions@ }) == after_renders(start, n as nat, qpc),
            frames@ =~= next_frames(start, n as nat, qpc),
        decreases count - n,
    {
        let ghost before = Mix { audio: audio@, completions: completions@ };
        proof {
            assert(start.audio.has_room((count - n) + n));
            assert(audio@.has_room(count - n));
            assert(audio@.has_room(1));
            lemma_rendered(before, qpc);
        }
        let frame: Frame = audio.render(qpc, completions);
        frames.push(frame);
        proof {
            let after = before.rendered(qpc);
            assert forall|frames: int|
                frames >= 0 && start.audio.has_room(frames + (n + 1)) implies #[trigger] audio@.has_room(
                frames,
            ) by {
                assert(start.audio.has_room((frames + 1) + n));
                assert(before.audio.has_room(frames + 1));
                assert(after.audio.has_room(frames));
            }
        }
        n = n + 1;
    }
    frames
}

impl Engine {
    /// An engine that streams at `rate` but does not run yet. `qpc_frequency`
    /// is the rate of the clock that frames are stamped with.
    pub fn new(rate: SampleRate, max_packet_bytes: u16, qpc_frequency: u64) -> (engine: Engine)
        requires
            max_packet_bytes <= MAX_PACKET_SIZE,
        ensures
            engine@ == (EngineView {
                rate_hz: rate.hz_spec() as int,
                max_packet_bytes: max_packet_bytes as int,
                qpc_per_microframe: qpc_frequency as int / 8000,
                tail: silent_tail(),
                remainder: 0,
                running: false,
                in_flight: 0,
                busy: Seq::new(16, |i: int| false),
                stats: Stats::zero(),
            }),
            engine@.wf(),
    {
        let mut busy: Vec<bool> = Vec::new();
        for i in 0..TRANSFERS
            invariant
                busy@ =~= Seq::new(i as nat, |k: int| false),
        {
            busy.push(false);
        }
        Engine {
            rate_hz: rate.hz(),
            max_packet_bytes: max_packet_bytes as usize,
            qpc_per_microframe: qpc_frequency / MICROFRAMES_PER_SECOND as u64,
            encoder: PlaybackEncoder::default(),
            nominal_remainder: 0,
            running: false,
            in_flight: 0,
            busy,
            stats: Stats::default(),
        }
    }

    /// Completed capture transfers are answered from now on.
    pub fn run(&mut self)
        ensures
            final(self)@ == (EngineView { running: true, ..old(self)@ }),
    {
        self.running = true;
    }

    /// Completed capture transfers are no longer answered.
    pub fn stop(&mut self)
        ensures
            final(self)@ == (EngineView { running: false, ..old(self)@ }),
    {
        self.running = false;
    }

    pub fn is_running(&self) -> (running: bool)
        ensures
            running == self@.running,
    {
        self.running
    }

    /// Whether every transfer that was sent has completed.
    pub fn is_idle(&self) -> (idle: bool)
        ensures
            idle == (self@.in_flight == 0),
    {
        self.in_flight == 0
    }

    /// How many transfers were sent and have not completed.
    pub fn in_flight(&self) -> (in_flight: u32)
        ensures
            in_flight == self@.in_flight,
    {
        self.in_flight
    }

    pub fn stats(&self) -> (stats: Stats)
        ensures
            stats == self@.stats,
    {
        self.stats
    }

    /// The packets of a capture transfer before it is sent: each may be as
    /// long as a packet can be.
    pub fn capture_packets() -> (packets: Vec<IsoPacket>)
        ensures
            packets@ == Seq::new(
                8,
                |i: int| IsoPacket { offset: (512 * i) as u32, length: 512, status: 0 },
            ),
    {
        let mut packets: Vec<IsoPacket> = Vec::new();
        for i in 0..PACKETS_PER_TRANSFER
            invariant
                packets@ =~= Seq::new(
                    i as nat,
                    |k: int| IsoPacket { offset: (512 * k) as u32, length: 512, status: 0 },
                ),
        {
            packets.push(
                IsoPacket {
                    offset: (i * MAX_PACKET_SIZE) as u32,
                    length: MAX_PACKET_SIZE as u32,
                    status: USBD_STATUS_SUCCESS,
                },
            );
        }
        packets
    }

    /// A transfer is about to be sent.
    pub fn begin_send(&mut self)
        requires
            old(self)@.in_flight < u32::MAX,
        ensures
            final(self)@ == (EngineView { in_flight: old(self)@.in_flight + 1, ..old(self)@ }),
    {
        self.in_flight = self.in_flight + 1;
    }

    /// The transfer was sent, or could not be for the reason in `status`.
    pub fn end_send(&mut self, sent: bool, status: NtStatus) -> (result: Result<(), NtStatus>)
        requires
            !sent ==> old(self)@.in_flight > 0,
        ensures
            result == (if sent {
                Ok::<(), NtStatus>(())
            } else {
                Err(status)
            }),
            final(self)@ == (if sent {
                old(self)@
            } else {
                EngineView { in_flight: old(self)@.in_flight - 1, ..old(self)@ }
            }),
    {
        if !sent {
            self.in_flight = self.in_flight - 1;
            return Err(status);
        }
        Ok(())
    }

    /// A capture transfer completed. Tells whether it is to be answered and
    /// sent again. A failed one is not sent again: once the device is gone the
    /// hub completes a resend inline, which would recurse through the
    /// completion routine until the stack overflows.
    pub fn capture_completed(&mut self, status: NtStatus) -> (answer: bool)
        ensures
            answer == (status >= 0 && old(self)@.running),
            final(self)@ == (EngineView {
                stats: if status >= 0 {
                    Stats {
                        capture_transfers: old(self)@.stats.capture_transfers.wrapping_add(1),
                        ..old(self)@.stats
                    }
                } else {
                    Stats {
                        capture_failures: old(self)@.stats.capture_failures.wrapping_add(1),
                        ..old(self)@.stats
                    }
                },
                ..old(self)@
            }),
    {
        if status >= 0 {
            self.stats.capture_transfers = self.stats.capture_transfers.wrapping_add(1);
            self.running
        } else {
            self.stats.capture_failures = self.stats.capture_failures.wrapping_add(1);
            false
        }
    }

    /// An answered capture transfer was sent again, or could not be.
    pub fn capture_resubmitted(&mut self, result: Result<(), NtStatus>)
        ensures
            final(self)@ == (if result is Ok {
                old(self)@
            } else {
                EngineView {
                    stats: Stats {
                        capture_failures: old(self)@.stats.capture_failures.wrapping_add(1),
                        ..old(self)@.stats
                    },
                    ..old(self)@
                }
            }),
    {
        if result.is_err() {
            self.stats.capture_failures = self.stats.capture_failures.wrapping_add(1);
        }
    }

    /// The completion of a transfer has been dealt with.
    pub fn transfer_done(&mut self)
        requires
            old(self)@.in_flight > 0,
        ensures
            final(self)@ == (EngineView { in_flight: old(self)@.in_flight - 1, ..old(self)@ }),
    {
        self.in_flight = self.in_flight - 1;
    }

    /// An answer was sent in playback transfer `transfer`, or could not be.
    pub fn playback_sent(&mut self, transfer: usize, result: Result<(), NtStatus>)
        requires
            transfer < old(self)@.busy.len(),
        ensures
            final(self)@ == (if result is Ok {
                old(self)@
            } else {
                EngineView {
                    stats: Stats {
                        playback_failures: old(self)@.stats.playback_failures.wrapping_add(1),
                        ..old(self)@.stats
                    },
                    busy: old(self)@.busy.update(transfer as int, false),
                    ..old(self)@
                }
            }),
    {
        if result.is_err() {
            self.stats.playback_failures = self.stats.playback_failures.wrapping_add(1);
            self.busy.set(transfer, false);
        }
    }

    /// Playback transfer `transfer` completed and can be used again.
    pub fn playback_completed(&mut self, transfer: usize, status: NtStatus)
        requires
            transfer < old(self)@.busy.len(),
        ensures
            final(self)@ == (EngineView {
                stats: if status >= 0 {
                    Stats {
                        playback_transfers: old(self)@.stats.playback_transfers.wrapping_add(1),
                        ..old(self)@.stats
                    }
                } else {
                    Stats {
                        playback_failures: old(self)@.stats.playback_failures.wrapping_add(1),
                        ..old(self)@.stats
                    }
                },
                busy: old(self)@.busy.update(transfer as int, false),
                ..old(self)@
            }),
    {
        if status >= 0 {
            self.stats.playback_transfers = self.stats.playback_transfers.wrapping_add(1);
        } else {
            self.stats.playback_failures = self.stats.playback_failures.wrapping_add(1);
        }
        self.busy.set(transfer, false);
    }

    /// The first free playback transfer.
    fn free_playback(&self) -> (transfer: Option<usize>)
        ensures
            match transfer {
                Some(index) => first_free(self@.busy, 0) == Some(index as int),
                None => first_free(self@.busy, 0) is None,
            },
    {
        let mut index: usize = 0;
        while index < self.busy.len()
            invariant
                index <= self.busy.len(),
                first_free(self@.busy, 0) == first_free(self@.busy, index as int),
            decreases self.busy.len() - index,
        {
            if !self.busy[index] {
                return Some(index);
            }
            index = index + 1;
        }
        None
    }

    /// Frames the device consumed in a microframe whose capture packet was lost.
    fn nominal_frames(&mut self) -> (frames: usize)
        requires
            old(self)@.wf(),
        ensures
            frames == nominal_frames(old(self)@.remainder, old(self)@.rate_hz),
            final(self)@ == (EngineView {
                remainder: nominal_remainder(old(self)@.remainder, old(self)@.rate_hz),
                ..old(self)@
            }),
            final(self)@.wf(),
    {
        let sum: u32 = self.nominal_remainder + self.rate_hz;
        self.nominal_remainder = sum % MICROFRAMES_PER_SECOND;
        (sum / MICROFRAMES_PER_SECOND) as usize
    }

    /// Counts what a packet reported.
    fn count(&mut self, valid: bool, status: CaptureStatus)
        requires
            status.frames <= u32::MAX,
            status.check_errors <= u32::MAX,
        ensures
            final(self)@ == (EngineView {
                stats: Stats {
                    invalid_packets: if valid {
                        old(self)@.stats.invalid_packets
                    } else {
                        old(self)@.stats.invalid_packets.wrapping_add(1)
                    },
                    frames: old(self)@.stats.frames.wrapping_add(status.frames as u32),
                    check_errors: old(self)@.stats.check_errors.wrapping_add(
                        status.check_errors as u32,
                    ),
                    rejected_packets: if status.output_rejected {
                        old(self)@.stats.rejected_packets.wrapping_add(1)
                    } else {
                        old(self)@.stats.rejected_packets
                    },
                    ..old(self)@.stats
                },
                ..old(self)@
            }),
    {
        if !valid {
            self.stats.invalid_packets = self.stats.invalid_packets.wrapping_add(1);
        }
        self.stats.frames = self.stats.frames.wrapping_add(status.frames as u32);
        self.stats.check_errors = self.stats.check_errors.wrapping_add(status.check_errors as u32);
        if status.output_rejected {
            self.stats.rejected_packets = self.stats.rejected_packets.wrapping_add(1);
        }
    }

    /// Counts a packet of a capture transfer and delivers what it carried; gives
    /// how many frames it stands for.
    fn hear_packet(
        &mut self,
        audio: &mut Audio,
        completions: &mut Vec<SlotCompletion>,
        packet: IsoPacket,
        buffer: &[u8],
        qpc: u64,
    ) -> (count: usize)
        requires
            old(self)@.wf(),
            old(audio)@.wf(),
            old(audio)@.has_room(32),
            is_valid(packet, old(self)@.max_packet_bytes) ==> packet.offset + packet.length
                <= buffer.len(),
        ensures
            final(self)@.wf(),
            final(audio)@.wf(),
            count <= 32,
            forall|frames: int|
                frames >= 0 && old(audio)@.has_room(frames + count)
                    ==> #[trigger] final(audio)@.has_room(frames),
            ({
                let max = old(self)@.max_packet_bytes;
                let remainder = old(self)@.remainder;
                let rate_hz = old(self)@.rate_hz;
                &&& count == frame_count(packet, max, remainder, rate_hz)
                &&& (Mix { audio: final(audio)@, completions: final(completions)@ }) == after_captures(
                    Mix { audio: old(audio)@, completions: old(completions)@ },
                    packet_data(packet, max, buffer@),
                    is_clean(packet, max, buffer@),
                    count as nat,
                    qpc,
                )
                &&& final(self)@ == (EngineView {
                    remainder: if is_valid(packet, max) {
                        remainder
                    } else {
                        nominal_remainder(remainder, rate_hz)
                    },
                    stats: count_packet(old(self)@.stats, packet, max, buffer@),
                    ..old(self)@
                })
            }),
    {
        let ghost engine = self@;
        let received: usize = packet.length as usize;
        let valid: bool = packet.status == USBD_STATUS_SUCCESS && received <= self.max_packet_bytes
            && received % FRAME_BYTES == 0;
        let start: usize = if valid {
            packet.offset as usize
        } else {
            0
        };
        let end: usize = if valid {
            start + received
        } else {
            0
        };
        let data: &[u8] = slice_subrange(buffer, start, end);
        let ghost bytes = packet_data(packet, engine.max_packet_bytes, buffer@);
        assert(data@ =~= bytes);
        let (status, decoded) = decode_capture(data);
        let ghost blocks = (bytes.len() / 16 * 2) as nat;
        proof {
            lemma_check_errors_bound(bytes, blocks);
            lemma_frame_count_bound(packet, engine, engine.remainder);
            assert(blocks == 2 * frames_in_spec(bytes.len() as int));
        }
        self.count(valid, status);
        let count: usize = if valid {
            status.frames
        } else {
            self.nominal_frames()
        };
        let clean: bool = valid && status.check_errors == 0;
        assert(audio@.has_room(count as int));
        capture_frames(audio, completions, &decoded, clean, count, qpc, Ghost(bytes));
        count
    }

    /// Adds a packet with the next `count` frames to a playback transfer.
    fn play_packet(
        &mut self,
        audio: &mut Audio,
        completions: &mut Vec<SlotCompletion>,
        count: usize,
        qpc: u64,
        playback: &mut Playback,
    )
        requires
            old(self)@.wf(),
            old(audio)@.wf(),
            count <= 32,
            old(audio)@.has_room(count as int),
            old(playback).data.len() <= 512 * 7,
        ensures
            final(self)@.wf(),
            final(audio)@.wf(),
            forall|frames: int|
                frames >= 0 && old(audio)@.has_room(frames + count)
                    ==> #[trigger] final(audio)@.has_room(frames),
            ({
                let mix = Mix { audio: old(audio)@, completions: old(completions)@ };
                let frames = next_frames(mix, count as nat, qpc);
                &&& (Mix { audio: final(audio)@, completions: final(completions)@ }) == after_renders(
                    mix,
                    count as nat,
                    qpc,
                )
                &&& final(self)@ == (EngineView {
                    tail: tail_after(old(self)@.tail, frames),
                    ..old(self)@
                })
                &&& final(playback).transfer == old(playback).transfer
                &&& final(playback).packets@ == old(playback).packets@.push(
                    OutPacket { offset: old(playback).data.len() as u32, length: (16 * count) as u32 },
                )
                &&& final(playback).data@ == old(playback).data@ + playback_packet(
                    old(self)@.tail,
                    frames,
                )
                &&& final(playback).data.len() == old(playback).data.len() + 16 * count
            }),
    {
        let ghost engine = self@;
        let frames: Vec<Frame> = render_frames(audio, completions, count, qpc);
        let length: usize = count * FRAME_BYTES;
        let mut piece: Vec<u8> = vec![0u8; length];
        self.encoder.encode(piece.as_mut_slice(), frames.as_slice());
        proof {
            assert(frames@.subrange(0, count as int) =~= frames@);
            assert(piece@ =~= playback_packet(engine.tail, frames@));
        }
        playback.packets.push(
            OutPacket { offset: playback.data.len() as u32, length: length as u32 },
        );
        playback.data.extend_from_slice(piece.as_slice());
    }

    /// Answers one packet of a capture transfer: delivers what it carried and,
    /// where there is a playback transfer, adds a packet of the same length to it.
    fn answer_packet(
        &mut self,
        audio: &mut Audio,
        completions: &mut Vec<SlotCompletion>,
        packet: IsoPacket,
        buffer: &[u8],
        qpc: u64,
        playback: &mut Option<Playback>,
    )
        requires
            old(self)@.wf(),
            old(audio)@.wf(),
            old(audio)@.has_room(64),
            is_valid(packet, old(self)@.max_packet_bytes) ==> packet.offset + packet.length
                <= buffer.len(),
            *old(playback) matches Some(given) ==> given.data.len() <= 512 * 7,
        ensures
            final(self)@.wf(),
            final(audio)@.wf(),
            forall|frames: int|
                frames >= 0 && old(audio)@.has_room(frames + 64)
                    ==> #[trigger] final(audio)@.has_room(frames),
            ({
                let before = Pass {
                    mix: Mix { audio: old(audio)@, completions: old(completions)@ },
                    tail: old(self)@.tail,
                    remainder: old(self)@.remainder,
                    stats: old(self)@.stats,
                    packets: match *old(playback) {
                        Some(given) => given.packets@,
                        None => seq![],
                    },
                    data: match *old(playback) {
                        Some(given) => given.data@,
                        None => seq![],
                    },
                };
                let after = before.after_packet(
                    old(self)@,
                    packet,
                    buffer@,
                    qpc,
                    *old(playback) is Some,
                );
                &&& final(audio)@ == after.mix.audio
                &&& final(completions)@ == after.mix.completions
                &&& final(self)@ == (EngineView {
                    tail: after.tail,
                    remainder: after.remainder,
                    stats: after.stats,
                    ..old(self)@
                })
                &&& match *final(playback) {
                    Some(filled) => {
                        &&& *old(playback) matches Some(given) && filled.transfer == given.transfer
                        &&& filled.packets@ == after.packets
                        &&& filled.data@ == after.data
                        &&& after.data.len() <= before.data.len() + 512
                    },
                    None => *old(playback) is None,
                }
            }),
    {
        let ghost room = audio@;
        assert(room.has_room(32));
        let count: usize = self.hear_packet(audio, completions, packet, buffer, qpc);
        let ghost heard = audio@;
        assert(heard.has_room(count as int)) by {
            assert(room.has_room(count + count));
        }
        match playback {
            Some(playback) => {
                self.play_packet(audio, completions, count, qpc, playback);
            },
            None => {},
        }
        proof {
            assert forall|frames: int| frames >= 0 && room.has_room(frames + 64) implies #[trigger] audio@.has_room(
                frames,
            ) by {
                assert(room.has_room((frames + count) + count));
                assert(heard.has_room(frames + count));
                assert(heard.has_room(frames));
            }
        }
    }

    /// Decodes a capture transfer that completed at `completed`, with its
    /// packets in `buffer`, delivers it to the streams and gives the playback
    /// transfer that answers it.
    pub fn answer(
        &mut self,
        audio: &mut Audio,
        packets: &[IsoPacket],
        buffer: &[u8],
        completed: u64,
    ) -> (answer: Answer)
        requires
            old(self)@.wf(),
            old(audio)@.wf(),
            old(audio)@.has_room(512),
            packets.len() == PACKETS_PER_TRANSFER,
            forall|i: int|
                0 <= i < packets.len() && is_valid(#[trigger] packets[i], old(self)@.max_packet_bytes)
                    ==> packets[i].offset + packets[i].length <= buffer.len(),
            completed >= 7 * old(self)@.qpc_per_microframe,
        ensures
            final(self)@.wf(),
            final(audio)@.wf(),
            ({
                let end = pass_end(old(self)@, old(audio)@, packets@, buffer@, completed);
                &&& final(self)@ == old(self)@.after_answer(end)
                &&& final(audio)@ == end.mix.audio
                &&& answer.completions@ == end.mix.completions
                &&& match answer.playback {
                    Some(playback) => {
                        &&& is_sent(old(self)@, end)
                        &&& first_free(old(self)@.busy, 0) == Some(playback.transfer as int)
                        &&& playback.packets@ == end.packets
                        &&& playback.data@ == end.data
                    },
                    None => !is_sent(old(self)@, end),
                }
            }),
    {
        let ghost engine = self@;
        let ghost start = pass_start(self@, audio@);
        let ghost room = audio@;
        proof {
            lemma_first_free(self@.busy, 0);
        }
        let free: Option<usize> = self.free_playback();
        let ghost playing = first_free(engine.busy, 0) is Some;
        let mut playback: Option<Playback> = match free {
            Some(transfer) => {
                self.busy.set(transfer, true);
                Some(Playback { transfer, packets: Vec::new(), data: Vec::new() })
            },
            None => {
                self.stats.playback_overruns = self.stats.playback_overruns.wrapping_add(1);
                None
            },
        };
        let ghost busy = self@.busy;
        let mut completions: Vec<SlotCompletion> = Vec::new();
        assert(completions@ =~= seq![]);
        let mut i: usize = 0;
        while i < PACKETS_PER_TRANSFER
            invariant
                i <= PACKETS_PER_TRANSFER,
                packets.len() == PACKETS_PER_TRANSFER,
                self@.wf(),
                engine.wf(),
                audio@.wf(),
                room.has_room(512),
                audio@.has_room(512 - 64 * i),
                forall|k: int|
                    0 <= k < packets.len() && is_valid(#[trigger] packets[k], engine.max_packet_bytes)
                        ==> packets[k].offset + packets[k].length <= buffer.len(),
                completed >= 7 * engine.qpc_per_microframe,
                playing == (playback is Some),
                ({
                    let pass = answered(
                        start,
                        engine,
                        packets@,
                        buffer@,
                        completed,
                        playing,
                        i as nat,
                    );
                    &&& self@ == (EngineView {
                        tail: pass.tail,
                        remainder: pass.remainder,
                        stats: pass.stats,
                        busy,
                        ..engine
                    })
                    &&& audio@ == pass.mix.audio
                    &&& completions@ == pass.mix.completions
                    &&& match playback {
                        Some(filled) => {
                            &&& free == Some(filled.transfer)
                            &&& filled.packets@ == pass.packets
                            &&& filled.data@ == pass.data
                            &&& pass.data.len() <= 512 * i
                        },
                        None => pass.packets == Seq::<OutPacket>::empty() && pass.data == Seq::<u8>::empty(),
                    }
                }),
            decreases PACKETS_PER_TRANSFER - i,
        {
            let ghost pass = answered(start, engine, packets@, buffer@, completed, playing, i as nat);
            let ghost current = self@;
            assert((7 - i) * engine.qpc_per_microframe <= 7 * engine.qpc_per_microframe
                && 0 <= (7 - i) * engine.qpc_per_microframe) by (nonlinear_arith)
                requires
                    engine.qpc_per_microframe >= 0,
                    0 <= i <= 7,
            ;
            let qpc: u64 = completed - (7 - i as u64) * self.qpc_per_microframe;
            assert(qpc == packet_time(engine, completed, i as int));
            proof {
                lemma_same_parameters(pass, engine, current, packets[i as int], buffer@, qpc, playing);
                assert(audio@.has_room((512 - 64 * (i + 1)) + 64));
            }
            self.answer_packet(audio, &mut completions, packets[i], buffer, qpc, &mut playback);
            i = i + 1;
        }
        let send: Option<Playback> = match playback {
            Some(filled) => {
                if filled.data.len() == 0 {
                    self.busy.set(filled.transfer, false);
                    assert(self@.busy =~= engine.busy);
                    None
                } else {
                    Some(filled)
                }
            },
            None => None,
        };
        Answer { playback: send, completions }
    }
}

/// What a packet does depends on the engine's rate and packet size alone.
proof fn lemma_same_parameters(
    pass: Pass,
    a: EngineView,
    b: EngineView,
    packet: IsoPacket,
    buffer: Seq<u8>,
    qpc: u64,
    playing: bool,
)
    requires
        a.rate_hz == b.rate_hz,
        a.max_packet_bytes == b.max_packet_bytes,
    ensures
        pass.after_packet(a, packet, buffer, qpc, playing) == pass.after_packet(
            b,
            packet,
            buffer,
            qpc,
            playing,
        ),
{
}

/// The length of the playback packet that answers a capture packet: the same
/// as that of a packet that came through, the nominal one for a lost packet.
pub open spec fn answering_length(
    start: Pass,
    engine: EngineView,
    packets: Seq<IsoPacket>,
    buffer: Seq<u8>,
    completed: u64,
    index: int,
) -> int {
    if is_valid(packets[index], engine.max_packet_bytes) {
        packets[index].length as int
    } else {
        16 * nominal_frames(
            answered(start, engine, packets, buffer, completed, true, index as nat).remainder,
            engine.rate_hz,
        )
    }
}

/// Every playback packet has the length of the capture packet that it
/// answers, the packets follow each other without a gap, and together they
/// are the whole transfer.
pub proof fn law_playback_matches_capture(
    engine: EngineView,
    audio: AudioView,
    packets: Seq<IsoPacket>,
    buffer: Seq<u8>,
    completed: u64,
    count: nat,
)
    requires
        engine.wf(),
        packets.len() >= count,
        count <= PACKETS_PER_TRANSFER,
        forall|i: int|
            0 <= i < packets.len() && is_valid(#[trigger] packets[i], engine.max_packet_bytes)
                ==> packets[i].offset + packets[i].length <= buffer.len(),
    ensures
        ({
            let start = pass_start(engine, audio);
            let pass = answered(start, engine, packets, buffer, completed, true, count);
            &&& pass.packets.len() == count
            &&& pass.data.len() <= 512 * count
            &&& 0 <= pass.remainder < 8000
            &&& forall|i: int|
                0 <= i < count ==> (#[trigger] pass.packets[i]).length == answering_length(
                    start,
                    engine,
                    packets,
                    buffer,
                    completed,
                    i,
                )
            &&& forall|i: int|
                0 <= i < count ==> (#[trigger] pass.packets[i]).offset + pass.packets[i].length == (
                if i + 1 < count {
                    pass.packets[i + 1].offset as int
                } else {
                    pass.data.len() as int
                })
            &&& count > 0 ==> pass.packets[0].offset == 0
        }),
    decreases count,
{
    if count > 0 {
        let start = pass_start(engine, audio);
        let before = answered(start, engine, packets, buffer, completed, true, (count - 1) as nat);
        law_playback_matches_capture(
            engine,
            audio,
            packets,
            buffer,
            completed,
            (count - 1) as nat,
        );
        lemma_frame_count_bound(packets[count - 1], engine, before.remainder);
        let pass = answered(start, engine, packets, buffer, completed, true, count);
        let frames = frame_count(
            packets[count - 1],
            engine.max_packet_bytes,
            before.remainder,
            engine.rate_hz,
        );
        assert(pass.packets[count - 1].length == 16 * frames);
        assert(pass.data.len() == before.data.len() + 16 * frames);
        assert forall|i: int| 0 <= i < count implies (#[trigger] pass.packets[i]).offset
            + pass.packets[i].length == (if i + 1 < count {
            pass.packets[i + 1].offset as int
        } else {
            pass.data.len() as int
        }) by {
            if i + 1 < count {
                assert(pass.packets[i] == before.packets[i]);
            }
        }
    }
}

/// What is left over of the nominal frames after `lost` lost packets.
pub open spec fn remainder_after(remainder: int, rate_hz: int, lost: nat) -> int
    decreases lost,
{
    if lost == 0 {
        remainder
    } else {
        nominal_remainder(remainder_after(remainder, rate_hz, (lost - 1) as nat), rate_hz)
    }
}

/// The nominal frames of `lost` lost packets together.
pub open spec fn frames_after(remainder: int, rate_hz: int, lost: nat) -> int
    decreases lost,
{
    if lost == 0 {
        0
    } else {
        frames_after(remainder, rate_hz, (lost - 1) as nat) + nominal_frames(
            remainder_after(remainder, rate_hz, (lost - 1) as nat),
            rate_hz,
        )
    }
}

/// Lost packets move the streams by the nominal frame count: however many are
/// lost, the frames that stand for them are less than one frame short of the
/// rate, and exact after each second.
pub proof fn law_lost_packets_keep_time(remainder: int, rate_hz: int, lost: nat)
    requires
        0 <= remainder < 8000,
        rate_hz >= 0,
    ensures
        0 <= remainder_after(remainder, rate_hz, lost) < 8000,
        8000 * frames_after(remainder, rate_hz, lost) + remainder_after(remainder, rate_hz, lost)
            == remainder + lost * rate_hz,
        lost == 8000 ==> frames_after(remainder, rate_hz, lost) == rate_hz && remainder_after(
            remainder,
            rate_hz,
            lost,
        ) == remainder,
    decreases lost,
{
    if lost > 0 {
        law_lost_packets_keep_time(remainder, rate_hz, (lost - 1) as nat);
        assert(lost * rate_hz == (lost - 1) * rate_hz + rate_hz) by (nonlinear_arith);
    }
    if lost == 8000 {
        assert(lost * rate_hz == 8000 * rate_hz) by (nonlinear_arith)
            requires
                lost == 8000,
        ;
    }
}

/// The counters are recorded in a fixed order, and all of them begin at zero.
pub proof fn law_counters_are_recorded_in_order(stats: Stats)
    ensures
        stats.counters().len() == 9,
        stats.counters()[0] == stats.capture_transfers,
        stats.counters()[1] == stats.capture_failures,
        stats.counters()[2] == stats.frames,
        stats.counters()[3] == stats.check_errors,
        stats.counters()[4] == stats.rejected_packets,
        stats.counters()[5] == stats.playback_transfers,
        stats.counters()[6] == stats.playback_failures,
        stats.counters()[7] == stats.playback_overruns,
        stats.counters()[8] == stats.invalid_packets,
        forall|i: int| 0 <= i < 9 ==> #[trigger] Stats::zero().counters()[i] == 0,
{
}

/// A capture transfer is sent with eight packets of the largest size, one after
/// the other.
pub proof fn law_capture_packets_follow_one_another(packets: Vec<IsoPacket>, i: int)
    requires
        call_ensures(Engine::capture_packets, (), packets),
        0 <= i < 8,
    ensures
        packets.len() == 8,
        packets@[i].offset == 512 * i,
        packets@[i].length == 512,
        packets@[i].status == 0,
{
}

/// A completed capture transfer is answered where it succeeded while the engine
/// runs. Success and failure are counted apart, and nothing else changes.
pub proof fn law_captures_are_answered_while_running(status: NtStatus, answer: bool)
    ensures
        forall|engine: &mut Engine| #[trigger]
            call_ensures(Engine::capture_completed, (engine, status), answer) ==> {
                let before = (*engine)@;
                let after = (*final(engine))@;
                &&& answer <==> status >= 0 && before.running
                &&& status >= 0 ==> after.stats.capture_failures == before.stats.capture_failures
                &&& status >= 0 ==> (after.stats.capture_transfers
                    - before.stats.capture_transfers - 1) % 4294967296 == 0
                &&& status < 0 ==> after.stats.capture_transfers == before.stats.capture_transfers
                &&& status < 0 ==> (after.stats.capture_failures - before.stats.capture_failures
                    - 1) % 4294967296 == 0
                &&& after.stats.playback_failures == before.stats.playback_failures
                &&& after.stats.frames == before.stats.frames
                &&& after.running == before.running
                &&& after.in_flight == before.in_flight
                &&& after.busy == before.busy
                &&& after.tail == before.tail
                &&& after.remainder == before.remainder
            },
{
}

/// A playback transfer can be used again once it has completed, or where it could
/// not be sent; no other transfer changes.
pub proof fn law_playback_transfers_are_given_back(
    transfer: usize,
    other: int,
    status: NtStatus,
    result: Result<(), NtStatus>,
)
    requires
        0 <= other,
        other != transfer,
    ensures
        forall|engine: &mut Engine| #[trigger]
            call_ensures(Engine::playback_completed, (engine, transfer, status), ())
                && transfer < (*engine)@.busy.len() && other < (*engine)@.busy.len() ==> {
                let before = (*engine)@;
                let after = (*final(engine))@;
                &&& !after.busy[transfer as int]
                &&& after.busy[other] == before.busy[other]
                &&& status >= 0 ==> (after.stats.playback_transfers
                    - before.stats.playback_transfers - 1) % 4294967296 == 0
                &&& status < 0 ==> (after.stats.playback_failures - before.stats.playback_failures
                    - 1) % 4294967296 == 0
                &&& after.in_flight == before.in_flight
                &&& after.tail == before.tail
            },
        forall|engine: &mut Engine| #[trigger]
            call_ensures(Engine::playback_sent, (engine, transfer, result), ()) && transfer < (
            *engine)@.busy.len() && other < (*engine)@.busy.len() ==> {
                let before = (*engine)@;
                let after = (*final(engine))@;
                &&& result is Ok ==> after == before
                &&& result is Err ==> !after.busy[transfer as int] && after.busy[other]
                    == before.busy[other]
                &&& result is Err ==> (after.stats.playback_failures
                    - before.stats.playback_failures - 1) % 4294967296 == 0
            },
{
}

/// Transfers are counted from before they are sent until they are dealt with;
/// one that could not be sent is not counted.
pub proof fn law_transfers_in_flight_are_counted(sent: bool, status: NtStatus)
    ensures
        forall|engine: &mut Engine| #[trigger]
            call_ensures(Engine::begin_send, (engine,), ()) ==> (*final(engine))@.in_flight == (
            *engine)@.in_flight + 1,
        forall|engine: &mut Engine, result: Result<(), NtStatus>| #[trigger]
            call_ensures(Engine::end_send, (engine, sent, status), result) ==> {
                &&& sent ==> result is Ok && (*final(engine))@ == (*engine)@
                &&& !sent ==> result == Err::<(), NtStatus>(status)
                &&& !sent ==> (*final(engine))@.in_flight == (*engine)@.in_flight - 1
            },
        forall|engine: &mut Engine| #[trigger]
            call_ensures(Engine::transfer_done, (engine,), ()) ==> (*final(engine))@.in_flight == (
            *engine)@.in_flight - 1,
{
}

} // verus!
