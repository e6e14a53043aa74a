//! Real-time packet streams. The audio engine and the driver share a ring of
//! packets; the USB engine moves frames in and out of it and reports each
//! finished packet, so the device clock paces the stream.

use vstd::prelude::*;

use crate::bytes::{
    byte_of, i16_from_le, i32_byte, i32_from_le, is_sample24, law_low_bytes_make_a_sample,
    le16_value, le32_value, lemma_shift_right_8, lemma_u64_as_u32, signed,
};
use crate::proto::SampleRate;
use crate::settings::div_ceil_spec;
use crate::status::{
    NtStatus, STATUS_DATA_LATE_ERROR, STATUS_DATA_OVERRUN, STATUS_INSUFFICIENT_RESOURCES,
    STATUS_INVALID_PARAMETER, STATUS_SUCCESS,
};

verus! {

pub const PAGE_SIZE: usize = 4096;

pub const MAX_PACKETS: usize = 8;

#[derive(Clone, Copy, Debug, PartialEq, Eq, Structural)]
pub enum Slot {
    Output12,
    Output34,
    Input12,
}

impl Slot {
    pub const ALL: [Slot; 3] = [Slot::Output12, Slot::Output34, Slot::Input12];

    pub open spec fn index_spec(self) -> int {
        match self {
            Slot::Output12 => 0,
            Slot::Output34 => 1,
            Slot::Input12 => 2,
        }
    }

    /// The slot's place in [`Slot::ALL`].
    pub fn index(self) -> (index: usize)
        ensures
            index == self.index_spec(),
            index < 3,
    {
        match self {
            Slot::Output12 => 0,
            Slot::Output34 => 1,
            Slot::Input12 => 2,
        }
    }

    pub fn is_capture(self) -> (capture: bool)
        ensures
            capture == (self == Slot::Input12),
    {
        self == Slot::Input12
    }
}

/// A finished packet, to be reported to the audio engine.
#[derive(Clone, Copy, Debug, PartialEq, Eq, Structural)]
pub struct Completion {
    pub packet: u64,
    pub qpc: u64,
}

/// Where a packet of `size` bytes begins in its buffer of `buffer_length` bytes.
#[derive(Clone, Copy, Debug, PartialEq, Eq, Structural)]
pub struct RtPacket {
    pub buffer_length: u32,
    pub offset: u32,
    pub size: u32,
}

#[derive(Debug)]
pub struct RtStream {
    slot: Slot,
    rate: SampleRate,
    container_bytes: usize,
    buffers: Vec<Vec<u8>>,
    packet_bytes: usize,
    first_offset: usize,
    frames: u64,
    qpc: u64,
    current_packet: u32,
    last_packet_start_qpc: u64,
}

/// A stream as a value.
#[verifier::ext_equal]
pub struct StreamView {
    pub slot: Slot,
    pub rate: SampleRate,
    /// Bytes of one sample in the ring.
    pub container: int,
    /// The ring's memory; empty while no packets are allocated.
    pub buffers: Seq<Seq<u8>>,
    pub packet_bytes: int,
    /// Where packet 0 begins in its buffer.
    pub first_offset: int,
    /// Frames moved since the stream was prepared.
    pub frames: int,
    /// When the last frame moved.
    pub qpc: int,
    pub current_packet: int,
    pub last_packet_start_qpc: int,
}

/// `memory` with `data` written at `at`.
pub open spec fn overwrite(memory: Seq<u8>, at: int, data: Seq<u8>) -> Seq<u8> {
    Seq::new(
        memory.len(),
        |i: int|
            if at <= i < at + data.len() {
                data[i - at]
            } else {
                memory[i]
            },
    )
}

/// The 24-bit sample in the bytes at `at`: 16-bit containers hold its upper
/// bits, 32-bit ones hold it left-justified.
pub open spec fn stored_sample(memory: Seq<u8>, at: int, container: int) -> int {
    if container == 2 {
        signed(le16_value(memory[at], memory[at + 1]), 65536) * 256
    } else {
        signed(
            le32_value(memory[at], memory[at + 1], memory[at + 2], memory[at + 3]),
            4294967296,
        ) / 256
    }
}

/// The bytes that hold a 24-bit sample in a container.
pub open spec fn sample_bytes(sample: int, container: int) -> Seq<u8> {
    if container == 2 {
        seq![byte_of(sample, 1), byte_of(sample, 2)]
    } else {
        seq![0u8, byte_of(sample, 0), byte_of(sample, 1), byte_of(sample, 2)]
    }
}

impl StreamView {
    pub open spec fn wf(self) -> bool {
        &&& self.container == 2 || self.container == 4
        &&& self.buffers.len() <= 8
        &&& self.frames >= 0
        &&& self.buffers.len() > 0 ==> {
            &&& self.packet_bytes > 0
            &&& self.packet_bytes % (2 * self.container) == 0
            &&& self.first_offset >= 0
            &&& forall|i: int|
                0 <= i < self.buffers.len() ==> (#[trigger] self.buffers[i]).len()
                    == self.first_offset + self.packet_bytes
        }
    }

    pub open spec fn frames_per_packet(self) -> int {
        self.packet_bytes / (2 * self.container)
    }

    /// The packet that the next frame belongs to.
    pub open spec fn frame_packet(self) -> int {
        (self.frames / self.frames_per_packet()) % (self.buffers.len() as int)
    }

    /// Where the next frame begins in the buffer of its packet.
    pub open spec fn frame_offset(self) -> int {
        (if self.frame_packet() == 0 {
            self.first_offset
        } else {
            0
        }) + (self.frames % self.frames_per_packet()) * (2 * self.container)
    }

    /// The next frame of the ring: silence while it has no packets.
    pub open spec fn next_frame(self) -> (int, int) {
        if self.buffers.len() == 0 {
            (0, 0)
        } else {
            let memory = self.buffers[self.frame_packet()];
            let at = self.frame_offset();
            (
                stored_sample(memory, at, self.container),
                stored_sample(memory, at + self.container, self.container),
            )
        }
    }

    /// Whether the frame that moves next is the last one of its packet.
    pub open spec fn finishes_packet(self) -> bool {
        self.buffers.len() > 0 && (self.frames + 1) % self.frames_per_packet() == 0
    }

    /// Frames moved so far make this many whole packets.
    pub open spec fn packets_done(self) -> int {
        self.frames / self.frames_per_packet()
    }

    /// One frame has moved at `qpc`.
    pub open spec fn advanced(self, qpc: int) -> StreamView {
        let moved = StreamView { frames: self.frames + 1, qpc, ..self };
        if self.finishes_packet() {
            StreamView {
                current_packet: moved.packets_done() % 4294967296,
                last_packet_start_qpc: qpc,
                ..moved
            }
        } else {
            moved
        }
    }

    /// The packet that is finished once the next frame has moved at `qpc`.
    pub open spec fn completion(self, qpc: u64) -> Option<Completion> {
        if self.finishes_packet() {
            Some(
                Completion {
                    packet: ((self.frames + 1) / self.frames_per_packet() - 1) as u64,
                    qpc,
                },
            )
        } else {
            None
        }
    }

    /// The next frame was rendered at `qpc`.
    pub open spec fn rendered(self, qpc: int) -> StreamView {
        if self.buffers.len() == 0 {
            self
        } else {
            self.advanced(qpc)
        }
    }

    /// The ring's memory with a frame of two samples stored as the next frame.
    pub open spec fn stored(self, left: int, right: int) -> Seq<Seq<u8>> {
        if self.buffers.len() == 0 {
            self.buffers
        } else {
            let data = sample_bytes(left, self.container) + sample_bytes(right, self.container);
            self.buffers.update(
                self.frame_packet(),
                overwrite(self.buffers[self.frame_packet()], self.frame_offset(), data),
            )
        }
    }

    /// A frame of two samples was captured at `qpc`.
    pub open spec fn captured(self, left: int, right: int, qpc: int) -> StreamView {
        StreamView { buffers: self.stored(left, right), ..self }.advanced(qpc)
    }

    pub open spec fn reset(self) -> StreamView {
        StreamView { frames: 0, qpc: 0, current_packet: 0, ..self }
    }

    /// Whether a ring of `count` packets of `packet_bytes` suits the stream.
    pub open spec fn admits_packets(self, count: int, packet_bytes: int) -> bool {
        &&& 0 < count <= MAX_PACKETS
        &&& packet_bytes > 0
        &&& packet_bytes % (2 * self.container) == 0
    }

    /// A ring of packets of `packet_bytes` in `buffers`.
    pub open spec fn with_packets(self, packet_bytes: int, buffers: Seq<Seq<u8>>) -> StreamView {
        StreamView {
            buffers,
            packet_bytes,
            first_offset: allocation_bytes(packet_bytes) - packet_bytes,
            ..self
        }
    }

    /// What is said of `memory` as a new ring of `count` packets of
    /// `packet_bytes`: as many buffers as could be had, or `None` if there was
    /// no room to describe the packets.
    pub open spec fn allocation(
        self,
        count: u32,
        packet_bytes: u32,
        memory: Option<Vec<Vec<u8>>>,
    ) -> Result<Seq<RtPacket>, NtStatus> {
        if !self.admits_packets(count as int, packet_bytes as int) {
            Err(STATUS_INVALID_PARAMETER)
        } else {
            match memory {
                Some(buffers) if buffers.len() >= count => Ok(
                    Seq::new(count as nat, |i: int| rt_packet(packet_bytes, i)),
                ),
                _ => Err(STATUS_INSUFFICIENT_RESOURCES),
            }
        }
    }

    /// The stream after `memory` was offered as its new ring: an incomplete
    /// one leaves it without packets.
    pub open spec fn allocated(
        self,
        count: u32,
        packet_bytes: u32,
        memory: Option<Vec<Vec<u8>>>,
    ) -> StreamView {
        if !self.admits_packets(count as int, packet_bytes as int) {
            self
        } else {
            match memory {
                None => self,
                Some(buffers) => if buffers.len() < count {
                    self.without_packets()
                } else {
                    self.with_packets(packet_bytes as int, crate::rt::memory(buffers@))
                },
            }
        }
    }

    pub open spec fn without_packets(self) -> StreamView {
        StreamView { buffers: seq![], ..self }
    }
}

/// Bytes to allocate for a packet: whole pages, so that no unrelated kernel
/// memory is mapped into the client.
pub open spec fn allocation_bytes(packet_bytes: int) -> int {
    div_ceil_spec(packet_bytes, PAGE_SIZE as int) * PAGE_SIZE
}

/// Packet `index` of a ring of packets of `packet_bytes`; packet 0 is shifted
/// to end on a page boundary.
pub open spec fn rt_packet(packet_bytes: u32, index: int) -> RtPacket {
    RtPacket {
        buffer_length: (allocation_bytes(packet_bytes as int) % 4294967296) as u32,
        offset: if index == 0 {
            (allocation_bytes(packet_bytes as int) - packet_bytes) as u32
        } else {
            0
        },
        size: packet_bytes,
    }
}

/// The next frame of a ring lies within the part of its packet's buffer that
/// the packet takes.
pub proof fn law_frames_stay_in_their_packet(stream: StreamView)
    requires
        stream.wf(),
        stream.buffers.len() > 0,
    ensures
        stream.frames_per_packet() >= 1,
        0 <= stream.frame_packet() < stream.buffers.len(),
        stream.frame_packet() == 0 ==> stream.first_offset <= stream.frame_offset(),
        0 <= stream.frame_offset(),
        stream.frame_offset() + 2 * stream.container <= (if stream.frame_packet() == 0 {
            stream.first_offset
        } else {
            0
        }) + stream.packet_bytes,
        stream.frame_offset() + 2 * stream.container
            <= stream.buffers[stream.frame_packet()].len(),
{
    let align = 2 * stream.container;
    let bytes = stream.packet_bytes;
    let per = stream.frames_per_packet();
    assert(per * align == bytes && per >= 1) by (nonlinear_arith)
        requires
            bytes > 0,
            align > 0,
            bytes % align == 0,
            per == bytes / align,
    ;
    let count = stream.buffers.len() as int;
    assert(stream.frames / per >= 0) by (nonlinear_arith)
        requires
            stream.frames >= 0,
            per >= 1,
    ;
    assert(0 <= (stream.frames / per) % count < count) by (nonlinear_arith)
        requires
            count > 0,
            stream.frames / per >= 0,
    ;
    let within = stream.frames % per;
    assert(0 <= within < per) by (nonlinear_arith)
        requires
            within == stream.frames % per,
            per >= 1,
    ;
    assert(0 <= within * align && within * align + align <= per * align) by (nonlinear_arith)
        requires
            0 <= within < per,
            align > 0,
    ;
    assert(stream.buffers[stream.frame_packet()].len() == stream.first_offset + bytes);
}

/// Storing a frame keeps the shape of the ring.
pub proof fn lemma_stored_shape(stream: StreamView, left: int, right: int)
    requires
        stream.wf(),
    ensures
        (StreamView { buffers: stream.stored(left, right), ..stream }).wf(),
{
    if stream.buffers.len() > 0 {
        law_frames_stay_in_their_packet(stream);
    }
}

/// What is left of a 24-bit sample in a container: all of it in 32 bits, all
/// but the low byte in 16.
pub open spec fn kept(sample: int, container: int) -> int {
    if container == 2 {
        sample / 256 * 256
    } else {
        sample
    }
}

/// The bytes of a sample are read as that sample.
proof fn lemma_sample_bytes(memory: Seq<u8>, at: int, sample: int, container: int)
    requires
        is_sample24(sample),
        container == 2 || container == 4,
        0 <= at,
        at + container <= memory.len(),
        memory.subrange(at, at + container) == sample_bytes(sample, container),
    ensures
        stored_sample(memory, at, container) == kept(sample, container),
{
    let bytes = memory.subrange(at, at + container);
    assert(memory[at] == bytes[0]);
    assert(memory[at + 1] == bytes[1]);
    law_low_bytes_make_a_sample(sample);
    let b0 = byte_of(sample, 0) as int;
    let b1 = byte_of(sample, 1) as int;
    let b2 = byte_of(sample, 2) as int;
    if container == 4 {
        assert(memory[at + 2] == bytes[2]);
        assert(memory[at + 3] == bytes[3]);
        let low = le32_value(memory[at], memory[at + 1], memory[at + 2], memory[at + 3]);
        assert(low == 256 * (b0 + 256 * b1 + 65536 * b2));
        assert(signed(low, 4294967296) == 256 * sample);
    } else {
        let low = le16_value(memory[at], memory[at + 1]);
        assert(low == b1 + 256 * b2);
        assert(sample / 256 * 256 == sample - b0);
        assert(signed(low, 65536) * 256 == sample - b0);
    }
}

/// The frame that a capture stored is the frame that a reader of the ring
/// finds in its place: whole in 32-bit containers, without the low bytes in
/// 16-bit ones. All other bytes of the ring are as they were.
pub proof fn law_captured_frames_read_back(stream: StreamView, left: int, right: int, qpc: int)
    requires
        stream.wf(),
        stream.buffers.len() > 0,
        is_sample24(left),
        is_sample24(right),
    ensures
        ({
            let after = stream.captured(left, right, qpc);
            let place = stream.frame_packet();
            let at = stream.frame_offset();
            &&& (StreamView { frames: stream.frames, ..after }).next_frame() == (
                kept(left, stream.container),
                kept(right, stream.container),
            )
            &&& after.buffers.len() == stream.buffers.len()
            &&& forall|packet: int, i: int|
                0 <= packet < stream.buffers.len() && 0 <= i < stream.buffers[packet].len() && (packet
                    != place || i < at || i >= at + 2 * stream.container)
                    ==> #[trigger] after.buffers[packet][i] == stream.buffers[packet][i]
        }),
{
    law_frames_stay_in_their_packet(stream);
    let container = stream.container;
    let place = stream.frame_packet();
    let at = stream.frame_offset();
    let data = sample_bytes(left, container) + sample_bytes(right, container);
    let memory = overwrite(stream.buffers[place], at, data);
    assert(memory.subrange(at, at + container) =~= sample_bytes(left, container));
    assert(memory.subrange(at + container, at + container + container) =~= sample_bytes(
        right,
        container,
    ));
    lemma_sample_bytes(memory, at, left, container);
    lemma_sample_bytes(memory, at + container, right, container);
}

/// Streams of frames pace the packets: each frame adds at most one finished
/// packet, packets finish in order and none is left out.
pub proof fn law_packets_finish_in_order(stream: StreamView, qpc: u64)
    requires
        stream.wf(),
        stream.buffers.len() > 0,
    ensures
        match stream.completion(qpc) {
            Some(completion) => {
                &&& stream.advanced(qpc as int).packets_done() == stream.packets_done() + 1
                &&& (stream.frames < u64::MAX ==> completion.packet == stream.packets_done())
            },
            None => stream.advanced(qpc as int).packets_done() == stream.packets_done(),
        },
{
    law_frames_stay_in_their_packet(stream);
    let per = stream.frames_per_packet();
    let frames = stream.frames;
    if stream.finishes_packet() {
        assert((frames + 1) / per == frames / per + 1 && frames / per >= 0 && frames / per
            <= frames) by (nonlinear_arith)
            requires
                per >= 1,
                frames >= 0,
                (frames + 1) % per == 0,
        ;
    } else {
        assert((frames + 1) / per == frames / per) by (nonlinear_arith)
            requires
                per >= 1,
                frames >= 0,
                (frames + 1) % per != 0,
        ;
    }
}

/// Buffers for at most `count` packets of `packet_bytes`, each of whole pages.
pub open spec fn fits_packets(
    memory: Option<Vec<Vec<u8>>>,
    count: u32,
    packet_bytes: u32,
) -> bool {
    memory matches Some(buffers) ==> buffers.len() <= count && forall|i: int|
        0 <= i < buffers.len() ==> (#[trigger] buffers[i]).len() == allocation_bytes(
            packet_bytes as int,
        )
}

/// The contents of buffers.
pub open spec fn memory(buffers: Seq<Vec<u8>>) -> Seq<Seq<u8>> {
    Seq::new(buffers.len(), |i: int| buffers[i]@)
}

impl View for RtStream {
    type V = StreamView;

    closed spec fn view(&self) -> StreamView {
        StreamView {
            slot: self.slot,
            rate: self.rate,
            container: self.container_bytes as int,
            buffers: memory(self.buffers@),
            packet_bytes: self.packet_bytes as int,
            first_offset: self.first_offset as int,
            frames: self.frames as int,
            qpc: self.qpc as int,
            current_packet: self.current_packet as int,
            last_packet_start_qpc: self.last_packet_start_qpc as int,
        }
    }
}

impl RtStream {
    /// A packet's memory can be addressed.
    proof fn lemma_buffer_length(&self, index: int)
        requires
            0 <= index < self@.buffers.len(),
        ensures
            self@.buffers[index] == self.buffers@[index]@,
            self@.buffers[index].len() <= usize::MAX,
    {
        assert(self.buffers@[index].len() <= usize::MAX);
    }

    pub fn new(slot: Slot, rate: SampleRate, container_bits: u32) -> (stream: RtStream)
        requires
            container_bits == 16 || container_bits == 32,
        ensures
            stream@ == (StreamView {
                slot,
                rate,
                container: container_bits as int / 8,
                buffers: seq![],
                packet_bytes: 0,
                first_offset: 0,
                frames: 0,
                qpc: 0,
                current_packet: 0,
                last_packet_start_qpc: 0,
            }),
            stream@.wf(),
    {
        RtStream {
            slot,
            rate,
            container_bytes: (container_bits / 8) as usize,
            buffers: Vec::new(),
            packet_bytes: 0,
            first_offset: 0,
            frames: 0,
            qpc: 0,
            current_packet: 0,
            last_packet_start_qpc: 0,
        }
    }

    pub fn slot(&self) -> (slot: Slot)
        ensures
            slot == self@.slot,
    {
        self.slot
    }

    pub fn rate(&self) -> (rate: SampleRate)
        ensures
            rate == self@.rate,
    {
        self.rate
    }

    fn block_align(&self) -> (bytes: usize)
        requires
            self@.wf(),
        ensures
            bytes == 2 * self@.container,
    {
        2 * self.container_bytes
    }

    /// The packet of the next frame and where the frame begins in its buffer.
    fn frame_bytes(&self) -> (place: Option<(usize, usize)>)
        requires
            self@.wf(),
        ensures
            match place {
                Some((index, offset)) => {
                    &&& self@.buffers.len() > 0
                    &&& index == self@.frame_packet()
                    &&& offset == self@.frame_offset()
                },
                None => self@.buffers.len() == 0,
            },
    {
        let count: usize = self.buffers.len();
        if count == 0 {
            return None;
        }
        proof {
            law_frames_stay_in_their_packet(self@);
            self.lemma_buffer_length(self@.frame_packet());
        }
        let align: usize = self.block_align();
        let per_packet: u64 = (self.packet_bytes / align) as u64;
        let index: usize = ((self.frames / per_packet) % (count as u64)) as usize;
        let base: usize = if index == 0 {
            self.first_offset
        } else {
            0
        };
        let ghost within = self@.frames % self@.frames_per_packet();
        assert(0 <= within && 0 <= within * align) by (nonlinear_arith)
            requires
                self@.frames >= 0,
                self@.frames_per_packet() >= 1,
                within == self@.frames % self@.frames_per_packet(),
        ;
        assert(within <= within * align) by (nonlinear_arith)
            requires
                align >= 1,
                0 <= within,
        ;
        let offset: usize = (self.frames % per_packet) as usize * align;
        Some((index, base + offset))
    }

    /// One sample of the frame at `at` of packet `index`.
    fn read_sample(&self, index: usize, at: usize) -> (sample: i32)
        requires
            self@.wf(),
            index < self@.buffers.len(),
            at + self@.container <= self@.buffers[index as int].len(),
        ensures
            sample == stored_sample(self@.buffers[index as int], at as int, self@.container),
    {
        proof {
            self.lemma_buffer_length(index as int);
        }
        let buffer: &Vec<u8> = &self.buffers[index];
        if self.container_bytes == 2 {
            i16_from_le(buffer[at], buffer[at + 1]) as i32 * 256
        } else {
            let wide: i32 = i32_from_le(
                buffer[at],
                buffer[at + 1],
                buffer[at + 2],
                buffer[at + 3],
            );
            proof {
                lemma_shift_right_8(wide);
            }
            wide >> 8
        }
    }

    /// Reads the next render frame as 24-bit samples. Also gives the packet
    /// that this frame finished.
    pub fn render_frame(&mut self, qpc: u64) -> (result: ([i32; 2], Option<Completion>))
        requires
            old(self)@.wf(),
            old(self)@.frames < u64::MAX,
        ensures
            final(self)@ == old(self)@.rendered(qpc as int),
            final(self)@.wf(),
            result.0[0] == old(self)@.next_frame().0,
            result.0[1] == old(self)@.next_frame().1,
            result.1 == old(self)@.completion(qpc),
    {
        match self.frame_bytes() {
            Some((index, offset)) => {
                proof {
                    law_frames_stay_in_their_packet(self@);
                    self.lemma_buffer_length(index as int);
                }
                let left: i32 = self.read_sample(index, offset);
                let right: i32 = self.read_sample(index, offset + self.container_bytes);
                let completion = self.advance(qpc);
                ([left, right], completion)
            },
            None => ([0, 0], None),
        }
    }

    /// Writes one sample into packet `index` at `at`.
    fn write_sample(&mut self, index: usize, at: usize, sample: i32)
        requires
            old(self)@.wf(),
            index < old(self)@.buffers.len(),
            at + old(self)@.container <= old(self)@.buffers[index as int].len(),
        ensures
            final(self)@ == (StreamView {
                buffers: old(self)@.buffers.update(
                    index as int,
                    overwrite(
                        old(self)@.buffers[index as int],
                        at as int,
                        sample_bytes(sample as int, old(self)@.container),
                    ),
                ),
                ..old(self)@
            }),
    {
        proof {
            self.lemma_buffer_length(index as int);
        }
        let ghost before = self.buffers@[index as int]@;
        let ghost all = self.buffers@;
        let narrow: bool = self.container_bytes == 2;
        let low: u8 = i32_byte(sample, 0);
        let middle: u8 = i32_byte(sample, 1);
        let high: u8 = i32_byte(sample, 2);
        let buffer: &mut Vec<u8> = &mut self.buffers[index];
        if narrow {
            buffer[at] = middle;
            buffer[at + 1] = high;
        } else {
            buffer[at] = 0;
            buffer[at + 1] = low;
            buffer[at + 2] = middle;
            buffer[at + 3] = high;
        }
        proof {
            let container = old(self)@.container;
            let expected = overwrite(before, at as int, sample_bytes(sample as int, container));
            assert(self.buffers@[index as int]@ =~= expected);
            assert(memory(self.buffers@) =~= memory(all).update(index as int, expected));
        }
    }

    /// Stores the next capture frame from 24-bit samples and gives the packet
    /// that this frame finished.
    pub fn capture_frame(&mut self, samples: [i32; 2], qpc: u64) -> (completion: Option<Completion>)
        requires
            old(self)@.wf(),
            old(self)@.frames < u64::MAX,
        ensures
            final(self)@ == old(self)@.captured(samples[0] as int, samples[1] as int, qpc as int),
            final(self)@.wf(),
            completion == old(self)@.completion(qpc),
    {
        let ghost before = self@;
        match self.frame_bytes() {
            Some((index, offset)) => {
                proof {
                    law_frames_stay_in_their_packet(self@);
                    self.lemma_buffer_length(index as int);
                }
                let container: usize = self.container_bytes;
                self.write_sample(index, offset, samples[0]);
                self.write_sample(index, offset + container, samples[1]);
                proof {
                    let left = sample_bytes(samples[0] as int, before.container);
                    let right = sample_bytes(samples[1] as int, before.container);
                    let memory = before.buffers[index as int];
                    assert(overwrite(overwrite(memory, offset as int, left), offset + container, right)
                        =~= overwrite(memory, offset as int, left + right));
                    assert(self@.buffers =~= before.stored(samples[0] as int, samples[1] as int));
                }
            },
            None => {},
        }
        self.advance(qpc)
    }

    fn advance(&mut self, qpc: u64) -> (completion: Option<Completion>)
        requires
            old(self)@.wf(),
            old(self)@.frames < u64::MAX,
        ensures
            final(self)@ == old(self)@.advanced(qpc as int),
            final(self)@.wf(),
            completion == old(self)@.completion(qpc),
    {
        let ghost before = self@;
        self.frames = self.frames + 1;
        self.qpc = qpc;
        if self.buffers.len() == 0 {
            return None;
        }
        proof {
            law_frames_stay_in_their_packet(before);
        }
        let align: usize = self.block_align();
        let per_packet: u64 = (self.packet_bytes / align) as u64;
        if self.frames % per_packet == 0 {
            proof {
                law_packets_finish_in_order(before, qpc);
                assert(before.frames / before.frames_per_packet() >= 0) by (nonlinear_arith)
                    requires
                        before.frames >= 0,
                        before.frames_per_packet() >= 1,
                ;
            }
            let completed: u64 = self.frames / per_packet - 1;
            proof {
                lemma_u64_as_u32((completed + 1) as u64);
            }
            self.current_packet = (completed + 1) as u32;
            self.last_packet_start_qpc = qpc;
            Some(Completion { packet: completed, qpc })
        } else {
            None
        }
    }

    /// Frames moved and the QPC at the last move.
    pub fn position(&self) -> (position: (u64, u64))
        ensures
            position.0 == self@.frames,
            position.1 == self@.qpc,
    {
        (self.frames, self.qpc)
    }

    pub fn reset(&mut self)
        ensures
            final(self)@ == old(self)@.reset(),
    {
        self.frames = 0;
        self.qpc = 0;
        self.current_packet = 0;
    }

    /// The bytes to allocate for each packet of a ring of `count` packets of
    /// `packet_bytes`.
    pub fn plan_packets(&self, count: u32, packet_bytes: u32) -> (bytes: Result<u64, NtStatus>)
        requires
            self@.wf(),
        ensures
            match bytes {
                Ok(bytes) => {
                    &&& self@.admits_packets(count as int, packet_bytes as int)
                    &&& bytes == allocation_bytes(packet_bytes as int)
                },
                Err(status) => {
                    &&& !self@.admits_packets(count as int, packet_bytes as int)
                    &&& status == STATUS_INVALID_PARAMETER
                },
            },
    {
        if count == 0 || count > MAX_PACKETS as u32 || packet_bytes == 0 || packet_bytes % (
        self.block_align() as u32) != 0 {
            return Err(STATUS_INVALID_PARAMETER);
        }
        let page: u64 = PAGE_SIZE as u64;
        let bytes: u64 = packet_bytes as u64;
        Ok((bytes + page - 1) / page * page)
    }

    /// Takes `memory` as the stream's ring: as many buffers of whole pages as
    /// could be had, or `None` if there was no room to describe the packets.
    pub fn allocate_packets(
        &mut self,
        count: u32,
        packet_bytes: u32,
        memory: Option<Vec<Vec<u8>>>,
    ) -> (packets: Result<Vec<RtPacket>, NtStatus>)
        requires
            old(self)@.wf(),
            fits_packets(memory, count, packet_bytes),
        ensures
            final(self)@ == old(self)@.allocated(count, packet_bytes, memory),
            old(self)@.allocation(count, packet_bytes, memory) == match packets {
                Ok(packets) => Ok(packets@),
                Err(status) => Err(status),
            },
            final(self)@.wf(),
    {
        let alloc_bytes: u64 = match self.plan_packets(count, packet_bytes) {
            Ok(bytes) => bytes,
            Err(status) => {
                return Err(status);
            },
        };
        let buffers: Vec<Vec<u8>> = match memory {
            Some(buffers) => buffers,
            None => {
                return Err(STATUS_INSUFFICIENT_RESOURCES);
            },
        };
        if buffers.len() < count as usize {
            self.free_packets();
            return Err(STATUS_INSUFFICIENT_RESOURCES);
        }
        let offset: u64 = alloc_bytes - packet_bytes as u64;
        proof {
            lemma_u64_as_u32(alloc_bytes);
        }
        let mut packets: Vec<RtPacket> = Vec::new();
        for i in 0..count
            invariant
                packets@ =~= Seq::new(i as nat, |k: int| rt_packet(packet_bytes, k)),
                alloc_bytes == allocation_bytes(packet_bytes as int),
                offset == alloc_bytes - packet_bytes,
                offset < 4096,
                (alloc_bytes as u32) == alloc_bytes % 4294967296,
        {
            packets.push(
                RtPacket {
                    buffer_length: alloc_bytes as u32,
                    offset: if i == 0 {
                        offset as u32
                    } else {
                        0
                    },
                    size: packet_bytes,
                },
            );
        }
        assert(self::memory(buffers@).len() > 0);
        assert forall|i: int| 0 <= i < buffers@.len() implies (#[trigger] self::memory(
            buffers@,
        )[i]).len() == allocation_bytes(packet_bytes as int) by {
            assert(buffers[i].len() == allocation_bytes(packet_bytes as int));
        }
        self.buffers = buffers;
        self.packet_bytes = packet_bytes as usize;
        self.first_offset = offset as usize;
        Ok(packets)
    }

    /// Gives the ring's memory up.
    pub fn free_packets(&mut self)
        requires
            old(self)@.wf(),
        ensures
            final(self)@ == old(self)@.without_packets(),
            final(self)@.wf(),
    {
        self.buffers = Vec::new();
        assert(memory(self.buffers@) =~= seq![]);
    }

    /// Whether the client may fill `packet` now: it has to be the one after
    /// the packet that is playing.
    pub fn set_render_packet(&self, packet: u32) -> (status: NtStatus)
        ensures
            status == (if packet <= self@.current_packet {
                STATUS_DATA_LATE_ERROR
            } else if packet > self@.current_packet + 1 {
                STATUS_DATA_OVERRUN
            } else {
                STATUS_SUCCESS
            }),
    {
        if packet <= self.current_packet {
            STATUS_DATA_LATE_ERROR
        } else if packet > self.current_packet + 1 {
            STATUS_DATA_OVERRUN
        } else {
            STATUS_SUCCESS
        }
    }

    pub fn current_packet(&self) -> (packet: u32)
        ensures
            packet == self@.current_packet,
    {
        self.current_packet
    }

    /// The last finished packet and when the packet after it began.
    pub fn capture_packet(&self) -> (packet: (u32, u64))
        ensures
            packet.0 == (if self@.current_packet == 0 {
                u32::MAX as int
            } else {
                self@.current_packet - 1
            }),
            packet.1 == self@.last_packet_start_qpc,
    {
        (self.current_packet.wrapping_sub(1), self.last_packet_start_qpc)
    }
}

/// The position to report for `position` when asked at `now`: a stream that
/// has not moved yet stands where it is now.
pub fn presentation_position(position: (u64, u64), now: u64) -> (reported: (u64, u64))
    ensures
        reported.0 == position.0,
        reported.1 == (if position.1 == 0 {
            now
        } else {
            position.1
        }),
{
    (
        position.0,
        if position.1 == 0 {
            now
        } else {
            position.1
        },
    )
}

/// Bytes in the hardware's queue and the delay behind it: there is neither.
pub fn hw_latency() -> (latency: (u32, u32))
    ensures
        latency == (0u32, 0u32),
{
    (0, 0)
}

/// The place of a slot in the table of slots: the two output pairs, then the
/// input.
pub proof fn law_slots_have_their_place(slot: Slot)
    ensures
        slot == Slot::Output12 <==> slot.index_spec() == 0,
        slot == Slot::Output34 <==> slot.index_spec() == 1,
        slot == Slot::Input12 <==> slot.index_spec() == 2,
{
}

/// A packet gets the fewest whole pages that hold it. Packet 0 ends with its
/// last page, the others begin with their first.
pub proof fn law_packets_take_whole_pages(packet_bytes: u32, index: int)
    requires
        0 < packet_bytes,
    ensures
        allocation_bytes(packet_bytes as int) % 4096 == 0,
        packet_bytes <= allocation_bytes(packet_bytes as int) < packet_bytes + 4096,
        rt_packet(packet_bytes, index).size == packet_bytes,
        index == 0 ==> rt_packet(packet_bytes, index).offset + packet_bytes == allocation_bytes(
            packet_bytes as int,
        ),
        index != 0 ==> rt_packet(packet_bytes, index).offset == 0,
        (allocation_bytes(packet_bytes as int) - rt_packet(packet_bytes, index).buffer_length)
            % 4294967296 == 0,
        allocation_bytes(packet_bytes as int) <= u32::MAX ==> rt_packet(
            packet_bytes,
            index,
        ).buffer_length == allocation_bytes(packet_bytes as int),
{
}

/// A ring has one to eight packets of whole frames. A ring that is asked for
/// otherwise, or for which memory is missing, is refused; one that is granted
/// is described packet by packet and takes the memory as it is.
pub proof fn law_rings_are_granted_whole(
    stream: StreamView,
    count: u32,
    packet_bytes: u32,
    memory: Option<Vec<Vec<u8>>>,
    i: int,
)
    requires
        stream.wf(),
        0 <= i,
    ensures
        ({
            let fits = 1 <= count <= 8 && packet_bytes > 0 && packet_bytes as int % (2
                * stream.container) == 0;
            let enough = memory is Some && memory->0.len() >= count;
            let answer = stream.allocation(count, packet_bytes, memory);
            let after = stream.allocated(count, packet_bytes, memory);
            &&& !fits ==> answer == Err::<Seq<RtPacket>, NtStatus>(STATUS_INVALID_PARAMETER)
            &&& !fits ==> after == stream
            &&& fits && !enough ==> answer == Err::<Seq<RtPacket>, NtStatus>(
                STATUS_INSUFFICIENT_RESOURCES,
            )
            &&& fits && memory is None ==> after == stream
            &&& fits && memory is Some && !enough ==> after.buffers.len() == 0
            &&& fits && enough ==> answer is Ok && answer->Ok_0.len() == count
            &&& fits && enough && i < count ==> answer->Ok_0[i].size == packet_bytes
            &&& fits && enough && 0 < i < count ==> answer->Ok_0[i].offset == 0
            &&& fits && enough ==> answer->Ok_0[0].offset == after.first_offset
            &&& fits && enough ==> after.packet_bytes == packet_bytes
            &&& fits && enough ==> after.buffers.len() == memory->0.len()
            &&& fits && enough && i < count ==> after.buffers[i] == memory->0[i]@
            &&& after.frames == stream.frames
            &&& after.container == stream.container
            &&& after.slot == stream.slot
            &&& after.rate == stream.rate
        }),
{
}

/// Preparing a stream sets it back to the ring's first frame and keeps the ring
/// with all it holds; giving the packets up keeps all but the ring.
pub proof fn law_preparing_keeps_the_ring(stream: StreamView)
    ensures
        stream.reset().frames == 0,
        stream.reset().qpc == 0,
        stream.reset().current_packet == 0,
        stream.reset().last_packet_start_qpc == stream.last_packet_start_qpc,
        stream.reset().buffers == stream.buffers,
        stream.reset().packet_bytes == stream.packet_bytes,
        stream.reset().first_offset == stream.first_offset,
        stream.reset().container == stream.container,
        stream.reset().slot == stream.slot,
        stream.reset().rate == stream.rate,
        stream.without_packets().buffers.len() == 0,
        stream.without_packets().frames == stream.frames,
        stream.without_packets().slot == stream.slot,
        stream.without_packets().rate == stream.rate,
{
}

/// A client may fill the packet after the one that is playing: one that has
/// begun is late, and one further on is too early.
pub proof fn law_only_the_next_packet_may_be_filled(stream: &RtStream, packet: u32, status: NtStatus)
    requires
        call_ensures(RtStream::set_render_packet, (stream, packet), status),
    ensures
        status == 0 <==> packet == stream@.current_packet + 1,
        packet <= stream@.current_packet ==> status == 0xC000_003D - 0x1_0000_0000,
        packet > stream@.current_packet + 1 ==> status == 0xC000_003C - 0x1_0000_0000,
{
}

/// The packet to read is the one before the packet that is being captured, as
/// counted in 32 bits, and comes with the time at which the next one began.
pub proof fn law_the_last_packet_may_be_read(stream: &RtStream, packet: (u32, u64))
    requires
        call_ensures(RtStream::capture_packet, (stream,), packet),
    ensures
        (packet.0 + 1 - stream@.current_packet) % 4294967296 == 0,
        packet.1 == stream@.last_packet_start_qpc,
{
}

/// The position reported is that of the frames moved, with the time of the last
/// move, or the present before the first one.
pub proof fn law_positions_are_those_of_the_last_move(
    stream: &RtStream,
    position: (u64, u64),
    now: u64,
    reported: (u64, u64),
)
    requires
        call_ensures(RtStream::position, (stream,), position),
        call_ensures(presentation_position, (position, now), reported),
    ensures
        reported.0 == stream@.frames,
        stream@.qpc != 0 ==> reported.1 == stream@.qpc,
        stream@.qpc == 0 ==> reported.1 == now,
{
}

} // verus!
