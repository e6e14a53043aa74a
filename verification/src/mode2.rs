//! Isochronous sample layout for `data_alignment == 2` with two stereo streams.
//!
//! Both directions are built from 8-byte blocks that carry one 24-bit
//! big-endian sample and one check byte per stream, the streams interleaved
//! byte by byte. A frame (left and right of every stream) takes two blocks.
//!
//! Capture blocks are `[chk0, chk1, b0, b0, b1, b1, b2, b2]`; the even block of
//! a frame holds the right channel. Playback blocks are rotated by four bytes,
//! `[b1, b1, b2, b2, chk0, chk1, b0, b0]`: a sample begins right after its
//! check byte and ends in the next block, so the last sample of one packet
//! finishes in the first block of the next. The even block of a playback frame
//! begins the left channel.
//!
//! Check bytes are `(stream << 1) | parity`, where parity is 1 for even blocks
//! counted from the start of the packet. On capture, bit 7 reports that the
//! device rejected playback data.

use vstd::prelude::*;

use crate::bytes::{
    be24_value, byte_of, i32_byte, is_sample24, law_be24_round_trip,
    law_low_bytes_make_a_sample, sample_of,
};

verus! {

pub const STREAMS: usize = 2;

pub const CHANNELS: usize = 4;

pub const BLOCK_BYTES: usize = 8;

pub const FRAME_BYTES: usize = 16;

const CHECK_STATES: u8 = 64;

pub const OUTPUT_PANIC: u8 = 0x80;

/// One sample per channel, stream-major: stream 0 left, stream 0 right, stream 1 left, ...
/// Samples are signed 24-bit values in the low bits.
pub type Frame = [i32; CHANNELS];

#[derive(Clone, Copy, Debug, PartialEq, Eq, Structural)]
pub struct CaptureStatus {
    pub frames: usize,
    pub check_errors: usize,
    pub output_rejected: bool,
}

impl Default for CaptureStatus {
    fn default() -> (status: CaptureStatus)
        ensures
            status == (CaptureStatus { frames: 0, check_errors: 0, output_rejected: false }),
    {
        CaptureStatus { frames: 0, check_errors: 0, output_rejected: false }
    }
}

/// The check byte of `stream` in the `block`-th block of a packet.
pub open spec fn check_value(stream: int, block: int) -> int {
    2 * stream + if block % 2 == 0 {
        1int
    } else {
        0
    }
}

/// The check byte that `packet` holds for `stream` in capture block `block`.
pub open spec fn capture_check(packet: Seq<u8>, block: int, stream: int) -> u8 {
    packet[8 * block + stream]
}

/// The sample that `packet` holds for `stream` in capture block `block`.
pub open spec fn capture_sample(packet: Seq<u8>, block: int, stream: int) -> int {
    be24_value(
        packet[8 * block + 2 + stream],
        packet[8 * block + 4 + stream],
        packet[8 * block + 6 + stream],
    )
}

/// The sample of `channel` in frame `frame` of a capture packet: right
/// channels are in the even block of the frame, left ones in the odd block.
pub open spec fn captured(packet: Seq<u8>, frame: int, channel: int) -> int {
    capture_sample(packet, 2 * frame + 1 - channel % 2, channel / 2)
}

/// Whether the check byte of `stream` in `block` is not the one due there,
/// the two top bits aside.
pub open spec fn check_fails(packet: Seq<u8>, block: int, stream: int) -> bool {
    capture_check(packet, block, stream) % 64 != check_value(stream, block)
}

/// How many check bytes of the first `blocks` blocks are wrong.
pub open spec fn check_error_count(packet: Seq<u8>, blocks: nat) -> nat
    decreases blocks,
{
    if blocks == 0 {
        0
    } else {
        let block = (blocks - 1) as nat;
        check_error_count(packet, block) + (if check_fails(packet, block as int, 0) {
            1nat
        } else {
            0
        }) + (if check_fails(packet, block as int, 1) {
            1nat
        } else {
            0
        })
    }
}

/// Whether a check byte of the first `blocks` blocks has its top bit set.
pub open spec fn rejection_reported(packet: Seq<u8>, blocks: int) -> bool {
    exists|block: int, stream: int|
        0 <= block < blocks && 0 <= stream < 2 && #[trigger] capture_check(packet, block, stream)
            >= 128
}

pub open spec fn frames_in_spec(packet_len: int) -> int {
    packet_len / 16
}

/// Whole frames in a packet of `packet_len` bytes.
pub fn frames_in(packet_len: usize) -> (frames: usize)
    ensures
        frames == frames_in_spec(packet_len as int),
{
    packet_len / FRAME_BYTES
}

/// The check byte of `stream` in the block at `block_index`.
pub fn check_byte(stream: usize, block_index: usize) -> (check: u8)
    requires
        stream < STREAMS,
    ensures
        check == check_value(stream as int, block_index as int),
{
    let parity: u8 = if block_index % 2 == 0 {
        1
    } else {
        0
    };
    2 * (stream as u8) + parity
}

/// The sample in three big-endian bytes.
pub fn from_be24(bytes: [u8; 3]) -> (sample: i32)
    ensures
        sample == be24_value(bytes@[0], bytes@[1], bytes@[2]),
        is_sample24(sample as int),
{
    let value: i32 = 65536 * (bytes[0] as i32) + 256 * (bytes[1] as i32) + bytes[2] as i32;
    if value >= 0x80_0000 {
        value - 0x100_0000
    } else {
        value
    }
}

/// The low 24 bits of `sample` as three big-endian bytes.
pub fn to_be24(sample: i32) -> (bytes: [u8; 3])
    ensures
        bytes@ == seq![byte_of(sample as int, 2), byte_of(sample as int, 1), byte_of(sample as int, 0)],
{
    let bytes = [i32_byte(sample, 2), i32_byte(sample, 1), i32_byte(sample, 0)];
    assert(bytes@ =~= seq![
        byte_of(sample as int, 2),
        byte_of(sample as int, 1),
        byte_of(sample as int, 0),
    ]);
    bytes
}

/// Reads one block of a capture packet: its samples by stream, how many of
/// its check bytes are wrong and whether one reports a rejection.
fn decode_block(packet: &[u8], block: usize) -> (result: ([i32; STREAMS], usize, bool))
    requires
        8 * block + 8 <= packet.len(),
    ensures
        result.0@[0] == capture_sample(packet@, block as int, 0),
        result.0@[1] == capture_sample(packet@, block as int, 1),
        result.1 == (if check_fails(packet@, block as int, 0) {
            1int
        } else {
            0
        }) + (if check_fails(packet@, block as int, 1) {
            1int
        } else {
            0
        }),
        result.2 == (capture_check(packet@, block as int, 0) >= 128 || capture_check(
            packet@,
            block as int,
            1,
        ) >= 128),
{
    let base: usize = 8 * block;
    let mut errors: usize = 0;
    if packet[base] % CHECK_STATES != check_byte(0, block) {
        errors = errors + 1;
    }
    if packet[base + 1] % CHECK_STATES != check_byte(1, block) {
        errors = errors + 1;
    }
    let rejected = packet[base] >= OUTPUT_PANIC || packet[base + 1] >= OUTPUT_PANIC;
    let first: i32 = from_be24([packet[base + 2], packet[base + 4], packet[base + 6]]);
    let second: i32 = from_be24([packet[base + 3], packet[base + 5], packet[base + 7]]);
    ([first, second], errors, rejected)
}

/// What `decode_capture` says of a packet.
pub open spec fn decodes_to(packet: Seq<u8>, status: CaptureStatus, frames: Seq<Frame>) -> bool {
    let count = frames_in_spec(packet.len() as int);
    &&& status.frames == count
    &&& status.check_errors == check_error_count(packet, (2 * count) as nat)
    &&& status.output_rejected == rejection_reported(packet, 2 * count)
    &&& frames.len() == count
    &&& forall|n: int, c: int|
        0 <= n < count && 0 <= c < 4 ==> #[trigger] frames[n]@[c] == captured(packet, n, c)
}

/// Decodes whole frames of a capture packet; trailing partial frames are ignored.
pub fn decode_capture(packet: &[u8]) -> (result: (CaptureStatus, Vec<Frame>))
    ensures
        decodes_to(packet@, result.0, result.1@),
        forall|n: int, c: int|
            0 <= n < result.1@.len() && 0 <= c < 4 ==> is_sample24(
                #[trigger] result.1@[n]@[c] as int,
            ),
{
    let count: usize = frames_in(packet.len());
    let mut frames: Vec<Frame> = Vec::new();
    let mut check_errors: usize = 0;
    let mut output_rejected = false;
    let mut n: usize = 0;
    while n < count
        invariant
            n <= count,
            count == packet.len() / 16,
            check_errors == check_error_count(packet@, (2 * n) as nat),
            check_errors <= 4 * n,
            output_rejected == rejection_reported(packet@, 2 * n),
            frames@.len() == n,
            forall|m: int, c: int|
                0 <= m < n && 0 <= c < 4 ==> #[trigger] frames@[m]@[c] == captured(packet@, m, c),
            forall|m: int, c: int|
                0 <= m < n && 0 <= c < 4 ==> is_sample24(#[trigger] frames@[m]@[c] as int),
        decreases count - n,
    {
        let (right, right_errors, right_rejected) = decode_block(packet, 2 * n);
        let (left, left_errors, left_rejected) = decode_block(packet, 2 * n + 1);
        let ghost before = output_rejected;
        check_errors = check_errors + right_errors + left_errors;
        output_rejected = output_rejected || right_rejected || left_rejected;
        frames.push([left[0], right[0], left[1], right[1]]);
        proof {
            assert(check_error_count(packet@, (2 * n + 1) as nat) == check_error_count(
                packet@,
                (2 * n) as nat,
            ) + right_errors);
            assert(check_error_count(packet@, (2 * n + 2) as nat) == check_error_count(
                packet@,
                (2 * n + 1) as nat,
            ) + left_errors);
            if output_rejected {
                if before {
                } else if right_rejected {
                    if capture_check(packet@, 2 * n as int, 0) >= 128 {
                    } else {
                        assert(capture_check(packet@, 2 * n as int, 1) >= 128);
                    }
                } else if capture_check(packet@, 2 * n + 1, 0) >= 128 {
                } else {
                    assert(capture_check(packet@, 2 * n + 1, 1) >= 128);
                }
                assert(rejection_reported(packet@, 2 * (n + 1)));
            }
            assert forall|block: int, stream: int|
                0 <= block < 2 * (n + 1) && 0 <= stream < 2 && #[trigger] capture_check(
                    packet@,
                    block,
                    stream,
                ) >= 128 implies output_rejected by {
                if block < 2 * n {
                    assert(rejection_reported(packet@, 2 * n));
                }
            }
        }
        n = n + 1;
    }
    (CaptureStatus { frames: count, check_errors, output_rejected }, frames)
}

/// Carries the tail of the last playback sample from one packet into the next.
#[derive(Clone, Copy, Debug)]
pub struct PlaybackEncoder {
    tail: [[u8; 2]; STREAMS],
}

/// The sample of `stream` that begins in playback block `block` when `frames`
/// are sent: the left channel in even blocks, the right one in odd blocks.
pub open spec fn played(frames: Seq<Frame>, block: int, stream: int) -> int {
    frames[block / 2]@[2 * stream + block % 2] as int
}

/// The `k`-th of the two bytes that finish a sample in the block after the
/// one it began in: for block 0 the bytes that the packet before left over.
pub open spec fn finishing_byte(
    tail: Seq<Seq<u8>>,
    frames: Seq<Frame>,
    block: int,
    stream: int,
    k: int,
) -> u8 {
    if block == 0 {
        tail[stream][k]
    } else {
        byte_of(played(frames, block - 1, stream), 1 - k)
    }
}

/// The byte at `index` of a playback packet that carries `frames` after a
/// packet that left `tail` over.
pub open spec fn playback_byte(tail: Seq<Seq<u8>>, frames: Seq<Frame>, index: int) -> u8 {
    let block = index / 8;
    let place = index % 8;
    let stream = place % 2;
    if place < 2 {
        finishing_byte(tail, frames, block, stream, 0)
    } else if place < 4 {
        finishing_byte(tail, frames, block, stream, 1)
    } else if place < 6 {
        check_value(stream, block) as u8
    } else {
        byte_of(played(frames, block, stream), 2)
    }
}

/// The playback packet that carries `frames`.
pub open spec fn playback_packet(tail: Seq<Seq<u8>>, frames: Seq<Frame>) -> Seq<u8> {
    Seq::new(16 * frames.len(), |index: int| playback_byte(tail, frames, index))
}

/// What a packet that carried `frames` leaves over for the next one.
pub open spec fn tail_after(tail: Seq<Seq<u8>>, frames: Seq<Frame>) -> Seq<Seq<u8>> {
    Seq::new(
        2,
        |stream: int|
            seq![
                finishing_byte(tail, frames, 2 * frames.len() as int, stream, 0),
                finishing_byte(tail, frames, 2 * frames.len() as int, stream, 1),
            ],
    )
}

impl View for PlaybackEncoder {
    type V = Seq<Seq<u8>>;

    closed spec fn view(&self) -> Seq<Seq<u8>> {
        seq![self.tail@[0]@, self.tail@[1]@]
    }
}

/// Two bytes of silence per stream.
pub open spec fn silent_tail() -> Seq<Seq<u8>> {
    seq![seq![0u8, 0u8], seq![0u8, 0u8]]
}

impl Default for PlaybackEncoder {
    fn default() -> (encoder: PlaybackEncoder)
        ensures
            encoder@ == silent_tail(),
    {
        let encoder = PlaybackEncoder { tail: [[0, 0], [0, 0]] };
        assert(encoder@[0] =~= seq![0u8, 0u8]);
        assert(encoder@[1] =~= seq![0u8, 0u8]);
        assert(encoder@ =~= silent_tail());
        encoder
    }
}

impl PlaybackEncoder {
    /// An encoder's state is two bytes for each of the two streams.
    pub proof fn lemma_shape(&self)
        ensures
            self@.len() == 2,
            self@[0].len() == 2,
            self@[1].len() == 2,
    {
    }

    /// Writes the block at `block`, with `first` and `second` the samples
    /// that begin in it, and remembers how they end.
    fn encode_block(&mut self, packet: &mut [u8], block: usize, first: i32, second: i32)
        requires
            8 * block + 8 <= old(packet)@.len(),
        ensures
            final(packet)@ == old(packet)@.subrange(0, 8 * block as int) + seq![
                old(self)@[0][0],
                old(self)@[1][0],
                old(self)@[0][1],
                old(self)@[1][1],
                check_value(0, block as int) as u8,
                check_value(1, block as int) as u8,
                byte_of(first as int, 2),
                byte_of(second as int, 2),
            ] + old(packet)@.subrange(8 * block + 8, old(packet)@.len() as int),
            final(self)@ == seq![
                seq![byte_of(first as int, 1), byte_of(first as int, 0)],
                seq![byte_of(second as int, 1), byte_of(second as int, 0)],
            ],
    {
        let base: usize = 8 * block;
        let first_bytes = to_be24(first);
        let second_bytes = to_be24(second);
        packet[base] = self.tail[0][0];
        packet[base + 1] = self.tail[1][0];
        packet[base + 2] = self.tail[0][1];
        packet[base + 3] = self.tail[1][1];
        packet[base + 4] = check_byte(0, block);
        packet[base + 5] = check_byte(1, block);
        packet[base + 6] = first_bytes[0];
        packet[base + 7] = second_bytes[0];
        self.tail = [[first_bytes[1], first_bytes[2]], [second_bytes[1], second_bytes[2]]];
        assert(self@[0] =~= seq![byte_of(first as int, 1), byte_of(first as int, 0)]);
        assert(self@[1] =~= seq![byte_of(second as int, 1), byte_of(second as int, 0)]);
    }

    /// Fills `packet` (a whole number of frames) with samples from `frames`.
    /// Bytes after the last whole frame stay as they are.
    pub fn encode(&mut self, packet: &mut [u8], frames: &[Frame])
        requires
            frames@.len() >= frames_in_spec(old(packet)@.len() as int),
        ensures
            ({
                let count = frames_in_spec(old(packet)@.len() as int);
                let sent = frames@.subrange(0, count);
                &&& final(packet)@ == playback_packet(old(self)@, sent) + old(packet)@.subrange(
                    16 * count,
                    old(packet)@.len() as int,
                )
                &&& final(self)@ == tail_after(old(self)@, sent)
            }),
    {
        let count: usize = frames_in(packet.len());
        let ghost sent = frames@.subrange(0, count as int);
        let ghost start = self@;
        let ghost before = packet@;
        let mut n: usize = 0;
        proof {
            self.lemma_shape();
            assert(start =~= tail_after(start, sent.subrange(0, 0))) by {
                let after = tail_after(start, sent.subrange(0, 0));
                assert(after[0] =~= start[0]);
                assert(after[1] =~= start[1]);
            }
        }
        while n < count
            invariant
                n <= count,
                count <= frames@.len(),
                count == before.len() / 16,
                packet@.len() == before.len(),
                before.len() <= usize::MAX,
                sent == frames@.subrange(0, count as int),
                start.len() == 2,
                start[0].len() == 2,
                start[1].len() == 2,
                forall|i: int|
                    0 <= i < 16 * n ==> #[trigger] packet@[i] == playback_byte(start, sent, i),
                forall|i: int| 16 * n <= i < before.len() ==> #[trigger] packet@[i] == before[i],
                self@.len() == 2,
                forall|s: int, k: int|
                    0 <= s < 2 && 0 <= k < 2 ==> #[trigger] self@[s][k] == finishing_byte(
                        start,
                        sent,
                        2 * n as int,
                        s,
                        k,
                    ),
                self@[0].len() == 2,
                self@[1].len() == 2,
            decreases count - n,
        {
            let samples: Frame = frames[n];
            assert(sent[n as int] == samples);
            let ghost was = packet@;
            let ghost was_tail = self@;
            self.encode_block(packet, 2 * n, samples[0], samples[2]);
            let ghost middle = packet@;
            let ghost middle_tail = self@;
            self.encode_block(packet, 2 * n + 1, samples[1], samples[3]);
            proof {
                assert(played(sent, 2 * n as int, 0) == samples@[0]);
                assert(played(sent, 2 * n as int, 1) == samples@[2]);
                assert(played(sent, 2 * n + 1, 0) == samples@[1]);
                assert(played(sent, 2 * n + 1, 1) == samples@[3]);
                assert forall|i: int| 0 <= i < 16 * (n + 1) implies #[trigger] packet@[i]
                    == playback_byte(start, sent, i) by {
                    if i < 16 * n {
                        assert(packet@[i] == middle[i] == was[i]);
                    } else if i < 16 * n + 8 {
                        assert(packet@[i] == middle[i]);
                        assert(i / 8 == 2 * n);
                        let place = i % 8;
                        assert(i == 16 * n + place);
                        assert(was_tail[place % 2][0] == finishing_byte(
                            start,
                            sent,
                            2 * n as int,
                            place % 2,
                            0,
                        ));
                        assert(was_tail[place % 2][1] == finishing_byte(
                            start,
                            sent,
                            2 * n as int,
                            place % 2,
                            1,
                        ));
                    } else {
                        assert(i / 8 == 2 * n + 1);
                        assert(i == 16 * n + 8 + i % 8);
                    }
                }
            }
            n = n + 1;
        }
        proof {
            assert(packet@ =~= playback_packet(start, sent) + before.subrange(
                16 * count,
                before.len() as int,
            ));
            let after = tail_after(start, sent);
            assert(self@[0] =~= after[0]);
            assert(self@[1] =~= after[1]);
            assert(self@ =~= after);
        }
    }
}

/// Whether `tail` is what an encoder can hold: two bytes for each stream.
pub open spec fn is_tail(tail: Seq<Seq<u8>>) -> bool {
    tail.len() == 2 && tail[0].len() == 2 && tail[1].len() == 2
}

/// Splitting a stream into packets does not change its bytes: two packets
/// sent one after the other hold what one packet with all the frames holds,
/// and leave the same bytes over.
pub proof fn law_packets_join(tail: Seq<Seq<u8>>, first: Seq<Frame>, second: Seq<Frame>)
    requires
        is_tail(tail),
    ensures
        playback_packet(tail, first) + playback_packet(tail_after(tail, first), second)
            == playback_packet(tail, first + second),
        tail_after(tail_after(tail, first), second) == tail_after(tail, first + second),
{
    let whole = first + second;
    let middle = tail_after(tail, first);
    let start = 2 * first.len() as int;
    assert forall|block: int, stream: int| 0 <= block < start && 0 <= stream < 2 implies played(
        whole,
        block,
        stream,
    ) == #[trigger] played(first, block, stream) by {
        assert(whole[block / 2] == first[block / 2]);
    }
    assert forall|block: int, stream: int|
        0 <= block < 2 * second.len() && 0 <= stream < 2 implies played(
        whole,
        start + block,
        stream,
    ) == #[trigger] played(second, block, stream) by {
        assert((start + block) / 2 == first.len() + block / 2);
        assert(whole[first.len() + block / 2] == second[block / 2]);
        assert((start + block) % 2 == block % 2);
    }
    assert forall|block: int, stream: int, k: int|
        0 <= block <= 2 * second.len() && 0 <= stream < 2 && 0 <= k < 2 implies finishing_byte(
        tail,
        whole,
        start + block,
        stream,
        k,
    ) == #[trigger] finishing_byte(middle, second, block, stream, k) by {
        if block == 0 {
            assert(middle[stream][k] == finishing_byte(tail, first, start, stream, k));
            if start > 0 {
                assert(played(whole, start - 1, stream) == played(first, start - 1, stream));
            }
        } else {
            assert(played(whole, start + (block - 1), stream) == played(second, block - 1, stream));
        }
    }
    let joined = playback_packet(tail, first) + playback_packet(middle, second);
    assert forall|i: int| 0 <= i < joined.len() implies #[trigger] joined[i] == playback_packet(
        tail,
        whole,
    )[i] by {
        let stream = i % 8 % 2;
        if i < 16 * first.len() {
            let block = i / 8;
            assert(played(whole, block, stream) == played(first, block, stream));
            if block > 0 {
                assert(played(whole, block - 1, stream) == played(first, block - 1, stream));
            }
        } else {
            let j = i - 16 * first.len();
            let block = j / 8;
            assert(i / 8 == start + block);
            assert(i % 8 == j % 8);
            assert(joined[i] == playback_byte(middle, second, j));
            assert((start + block) % 2 == block % 2);
            assert(played(whole, start + block, stream) == played(second, block, stream));
            assert(finishing_byte(middle, second, block, stream, 0) == finishing_byte(
                tail,
                whole,
                start + block,
                stream,
                0,
            ));
            assert(finishing_byte(middle, second, block, stream, 1) == finishing_byte(
                tail,
                whole,
                start + block,
                stream,
                1,
            ));
        }
    }
    assert(joined =~= playback_packet(tail, whole));
    let left = tail_after(middle, second);
    let right = tail_after(tail, whole);
    assert forall|stream: int| 0 <= stream < 2 implies #[trigger] left[stream] == right[stream] by {
        assert(start + 2 * second.len() == 2 * whole.len());
        let block = 2 * second.len() as int;
        assert(finishing_byte(middle, second, block, stream, 0) == finishing_byte(
            tail,
            whole,
            start + block,
            stream,
            0,
        ));
        assert(finishing_byte(middle, second, block, stream, 1) == finishing_byte(
            tail,
            whole,
            start + block,
            stream,
            1,
        ));
        assert(left[stream] =~= right[stream]);
    }
    assert(left =~= right);
}

/// In a playback packet every sample begins right after its check byte and
/// ends in the next block, or, from the last block, in the bytes left over
/// for the next packet.
pub proof fn law_samples_follow_their_check_bytes(
    tail: Seq<Seq<u8>>,
    frames: Seq<Frame>,
    block: int,
    stream: int,
)
    requires
        is_tail(tail),
        0 <= block < 2 * frames.len(),
        0 <= stream < 2,
        is_sample24(played(frames, block, stream)),
    ensures
        ({
            let packet = playback_packet(tail, frames);
            let left_over = tail_after(tail, frames);
            let (b1, b2) = if block + 1 < 2 * frames.len() {
                (packet[8 * block + 8 + stream], packet[8 * block + 10 + stream])
            } else {
                (left_over[stream][0], left_over[stream][1])
            };
            &&& packet[8 * block + 4 + stream] == check_value(stream, block)
            &&& be24_value(packet[8 * block + 6 + stream], b1, b2) == played(frames, block, stream)
        }),
{
    let packet = playback_packet(tail, frames);
    assert(packet[8 * block + 4 + stream] == playback_byte(tail, frames, 8 * block + 4 + stream));
    assert(packet[8 * block + 6 + stream] == playback_byte(tail, frames, 8 * block + 6 + stream));
    if block + 1 < 2 * frames.len() {
        let next = block + 1;
        assert(packet[8 * next + stream] == playback_byte(tail, frames, 8 * next + stream));
        assert(packet[8 * next + 2 + stream] == playback_byte(tail, frames, 8 * next + 2 + stream));
    } else {
        assert(tail_after(tail, frames)[stream] == seq![
            finishing_byte(tail, frames, block + 1, stream, 0),
            finishing_byte(tail, frames, block + 1, stream, 1),
        ]);
    }
    law_be24_round_trip(played(frames, block, stream));
}

/// The bytes of a playback packet: the sample of `channel` of `stream` in frame
/// `k` begins behind its check byte, which tells the stream and the channel
/// apart, and goes on at the start of the next block. What the packet before
/// left over comes first, and the samples that the last block begins are left
/// over for the next packet.
pub proof fn law_playback_layout(
    tail: Seq<Seq<u8>>,
    frames: Seq<Frame>,
    k: int,
    stream: int,
    channel: int,
)
    requires
        is_tail(tail),
        0 <= k < frames.len(),
        0 <= stream < 2,
        0 <= channel < 2,
    ensures
        ({
            let packet = playback_packet(tail, frames);
            let left_over = tail_after(tail, frames);
            let start = 16 * k + 8 * channel;
            let last = k + 1 == frames.len() && channel == 1;
            let middle = if last {
                left_over[stream][0]
            } else {
                packet[start + 8 + stream]
            };
            let low = if last {
                left_over[stream][1]
            } else {
                packet[start + 10 + stream]
            };
            let sample = frames[k]@[2 * stream + channel] as int;
            &&& packet.len() == 16 * frames.len()
            &&& packet[start + 4 + stream] == 2 * stream + 1 - channel
            &&& (sample - sample_of(packet[start + 6 + stream], middle, low)) % 16777216 == 0
            &&& -0x80_0000 <= sample < 0x80_0000 ==> sample == sample_of(
                packet[start + 6 + stream],
                middle,
                low,
            )
            &&& packet[stream] == tail[stream][0]
            &&& packet[2 + stream] == tail[stream][1]
        }),
{
    let packet = playback_packet(tail, frames);
    let block = 2 * k + channel;
    let sample = played(frames, block, stream);
    assert(block / 2 == k && block % 2 == channel);
    assert(packet[8 * block + 4 + stream] == playback_byte(tail, frames, 8 * block + 4 + stream));
    assert(packet[8 * block + 6 + stream] == playback_byte(tail, frames, 8 * block + 6 + stream));
    assert(packet[stream] == playback_byte(tail, frames, stream));
    assert(packet[2 + stream] == playback_byte(tail, frames, 2 + stream));
    if block + 1 < 2 * frames.len() {
        let next = block + 1;
        assert(packet[8 * next + stream] == playback_byte(tail, frames, 8 * next + stream));
        assert(packet[8 * next + 2 + stream] == playback_byte(tail, frames, 8 * next + 2 + stream));
    } else {
        assert(tail_after(tail, frames)[stream] == seq![
            finishing_byte(tail, frames, block + 1, stream, 0),
            finishing_byte(tail, frames, block + 1, stream, 1),
        ]);
    }
    law_low_bytes_make_a_sample(sample);
}

/// A packet of no frames is empty and passes on what the packet before left
/// over; before the first packet nothing but zeros is left over.
pub proof fn law_empty_packets_carry_over(tail: Seq<Seq<u8>>)
    requires
        is_tail(tail),
    ensures
        playback_packet(tail, seq![]) == Seq::<u8>::empty(),
        tail_after(tail, seq![]) == tail,
        silent_tail() == seq![seq![0u8, 0u8], seq![0u8, 0u8]],
{
    let none = Seq::<Frame>::empty();
    assert(playback_packet(tail, none) =~= Seq::<u8>::empty());
    assert(tail_after(tail, none)[0] =~= tail[0]);
    assert(tail_after(tail, none)[1] =~= tail[1]);
    assert(tail_after(tail, none) =~= tail);
    assert(silent_tail()[0] =~= seq![0u8, 0u8]);
    assert(silent_tail()[1] =~= seq![0u8, 0u8]);
    assert(silent_tail() =~= seq![seq![0u8, 0u8], seq![0u8, 0u8]]);
}

/// The bytes of a capture packet: a frame has its right samples in its first
/// eight bytes and its left ones in the second eight, the two streams byte by
/// byte in turn behind their check bytes, high bytes first.
pub proof fn law_capture_layout(
    packet: Seq<u8>,
    status: CaptureStatus,
    frames: Seq<Frame>,
    n: int,
    stream: int,
)
    requires
        decodes_to(packet, status, frames),
        0 <= n < frames.len(),
        0 <= stream < 2,
    ensures
        frames[n]@[2 * stream] == sample_of(
            packet[16 * n + 10 + stream],
            packet[16 * n + 12 + stream],
            packet[16 * n + 14 + stream],
        ),
        frames[n]@[2 * stream + 1] == sample_of(
            packet[16 * n + 2 + stream],
            packet[16 * n + 4 + stream],
            packet[16 * n + 6 + stream],
        ),
{
    let left = 2 * stream;
    let right = 2 * stream + 1;
    assert(frames[n]@[left] == captured(packet, n, left));
    assert(frames[n]@[right] == captured(packet, n, right));
}

/// A packet has as many frames as it has times sixteen bytes; what is left of
/// one is no frame.
pub proof fn law_partial_frames_are_ignored(
    packet: Seq<u8>,
    status: CaptureStatus,
    frames: Seq<Frame>,
)
    requires
        decodes_to(packet, status, frames),
    ensures
        status.frames == frames.len(),
        16 * frames.len() <= packet.len() < 16 * frames.len() + 16,
{
}

/// A packet is free of check errors where every check byte, its two top bits
/// aside, is that of its stream and its place in the frame; each other check
/// byte counts as one error.
pub proof fn law_check_bytes_are_counted(packet: Seq<u8>, frames: int)
    requires
        frames >= 0,
    ensures
        check_error_count(packet, 0) == 0,
        check_error_count(packet, (2 * frames + 2) as nat) == check_error_count(packet, (2 * frames) as nat) + (
        if packet[16 * frames] % 64 != 1 {
            1int
        } else {
            0
        }) + (if packet[16 * frames + 1] % 64 != 3 {
            1int
        } else {
            0
        }) + (if packet[16 * frames + 8] % 64 != 0 {
            1int
        } else {
            0
        }) + (if packet[16 * frames + 9] % 64 != 2 {
            1int
        } else {
            0
        }),
{
    reveal_with_fuel(check_error_count, 3);
    let block = 2 * frames;
    assert(check_fails(packet, block, 0) == (packet[16 * frames] % 64 != 1));
    assert(check_fails(packet, block, 1) == (packet[16 * frames + 1] % 64 != 3));
    assert(check_fails(packet, block + 1, 0) == (packet[16 * frames + 8] % 64 != 0));
    assert(check_fails(packet, block + 1, 1) == (packet[16 * frames + 9] % 64 != 2));
}

/// The device says that it rejected what was played by the top bit of any
/// check byte of a whole frame, and by nothing else.
pub proof fn law_rejections_are_top_bits(
    packet: Seq<u8>,
    status: CaptureStatus,
    frames: Seq<Frame>,
    index: int,
)
    requires
        decodes_to(packet, status, frames),
    ensures
        0 <= index < 16 * frames.len() && index % 8 < 2 && packet[index] >= 128
            ==> status.output_rejected,
        (forall|i: int| 0 <= i < 16 * frames.len() && i % 8 < 2 ==> #[trigger] packet[i] < 128)
            ==> !status.output_rejected,
{
    if 0 <= index < 16 * frames.len() && index % 8 < 2 && packet[index] >= 128 {
        assert(capture_check(packet, index / 8, index % 8) >= 128);
    }
    if forall|i: int| 0 <= i < 16 * frames.len() && i % 8 < 2 ==> #[trigger] packet[i] < 128 {
        assert forall|block: int, stream: int|
            0 <= block < 2 * frames.len() && 0 <= stream < 2 implies #[trigger] capture_check(
            packet,
            block,
            stream,
        ) < 128 by {
            assert(packet[8 * block + stream] < 128);
        }
    }
}

/// The capture packet with which a device reports `frames` without an error.
pub open spec fn capture_packet(frames: Seq<Frame>) -> Seq<u8> {
    Seq::new(
        16 * frames.len(),
        |index: int|
            {
                let block = index / 8;
                let place = index % 8;
                let stream = place % 2;
                let sample = frames[block / 2]@[2 * stream + 1 - block % 2] as int;
                if place < 2 {
                    (2 * stream + 1 - block % 2) as u8
                } else if place < 4 {
                    ((sample / 65536) % 256) as u8
                } else if place < 6 {
                    ((sample / 256) % 256) as u8
                } else {
                    (sample % 256) as u8
                }
            },
    )
}

/// A packet in which no check byte is wrong has no check errors.
proof fn lemma_no_check_errors(packet: Seq<u8>, blocks: nat)
    requires
        forall|block: int, stream: int|
            0 <= block < blocks && 0 <= stream < 2 ==> !(#[trigger] check_fails(
                packet,
                block,
                stream,
            )),
    ensures
        check_error_count(packet, blocks) == 0,
    decreases blocks,
{
    if blocks > 0 {
        lemma_no_check_errors(packet, (blocks - 1) as nat);
        assert(!check_fails(packet, blocks - 1, 0));
        assert(!check_fails(packet, blocks - 1, 1));
    }
}

/// Decoding gives back the frames that a device reported without an error:
/// whatever `decode_capture` says of such a packet, it says no check errors,
/// no rejection, and those frames.
pub proof fn law_clean_capture_decodes(
    frames: Seq<Frame>,
    status: CaptureStatus,
    decoded: Seq<Frame>,
)
    requires
        forall|n: int, c: int|
            0 <= n < frames.len() && 0 <= c < 4 ==> is_sample24(#[trigger] frames[n]@[c] as int),
        decodes_to(capture_packet(frames), status, decoded),
    ensures
        status.frames == frames.len(),
        status.check_errors == 0,
        !status.output_rejected,
        decoded == frames,
{
    let packet = capture_packet(frames);
    let blocks = 2 * frames.len();
    assert forall|block: int, stream: int| 0 <= block < blocks && 0 <= stream < 2 implies
        !(#[trigger] check_fails(packet, block, stream)) && capture_check(packet, block, stream)
        < 128 by {
        let index = 8 * block + stream;
        assert(index / 8 == block && index % 8 == stream);
    }
    lemma_no_check_errors(packet, blocks as nat);
    assert forall|block: int, stream: int| 0 <= block < blocks && 0 <= stream < 2 implies
        #[trigger] capture_check(packet, block, stream) < 128 by {
        assert(!check_fails(packet, block, stream));
    }
    assert forall|n: int, c: int| 0 <= n < frames.len() && 0 <= c < 4 implies captured(packet, n, c)
        == #[trigger] frames[n]@[c] by {
        let block = 2 * n + 1 - c % 2;
        let stream = c / 2;
        let sample = frames[n]@[c] as int;
        assert(c == 2 * stream + 1 - block % 2);
        assert(block / 2 == n);
        assert((8 * block + 2 + stream) / 8 == block && (8 * block + 2 + stream) % 8 == 2 + stream);
        assert((8 * block + 4 + stream) / 8 == block && (8 * block + 4 + stream) % 8 == 4 + stream);
        assert((8 * block + 6 + stream) / 8 == block && (8 * block + 6 + stream) % 8 == 6 + stream);
        assert(packet[8 * block + 2 + stream] == byte_of(sample, 2));
        assert(packet[8 * block + 4 + stream] == byte_of(sample, 1));
        assert(packet[8 * block + 6 + stream] == byte_of(sample, 0));
        law_be24_round_trip(sample);
    }
    assert forall|n: int| 0 <= n < frames.len() implies #[trigger] decoded[n] == frames[n] by {
        assert forall|c: int| 0 <= c < 4 implies #[trigger] decoded[n]@[c] == frames[n]@[c] by {
            assert(decoded[n]@[c] == captured(packet, n, c));
        }
        assert(decoded[n] =~= frames[n]);
    }
    assert(decoded =~= frames);
}

/// A sample that is sent and read back is the same sample, whatever its bits
/// above the low 24 were, and its three bytes come with the highest first.
pub proof fn law_samples_are_read_back(sample: i32, bytes: [u8; 3], read: i32)
    requires
        call_ensures(to_be24, (sample,), bytes),
        call_ensures(from_be24, (bytes,), read),
    ensures
        (sample - read) % 16777216 == 0,
        -0x80_0000 <= read < 0x80_0000,
        -0x80_0000 <= sample < 0x80_0000 ==> read == sample,
        (sample - (65536 * bytes@[0] + 256 * bytes@[1] + bytes@[2])) % 16777216 == 0,
{
    law_low_bytes_make_a_sample(sample as int);
}

/// Check bytes tell the two streams and the two blocks of a frame apart.
pub proof fn law_check_bytes_tell_blocks_apart(stream: usize, block: usize, check: u8)
    requires
        stream < 2,
        call_ensures(check_byte, (stream, block), check),
    ensures
        stream == 0 && block % 2 == 0 ==> check == 1,
        stream == 0 && block % 2 == 1 ==> check == 0,
        stream == 1 && block % 2 == 0 ==> check == 3,
        stream == 1 && block % 2 == 1 ==> check == 2,
{
}

} // verus!
