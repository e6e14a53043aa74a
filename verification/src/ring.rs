//! Where the frames of a ring lie. A ring's packets follow one another, the
//! first after the last, and each holds its frames without a gap; packet 0 is
//! shifted within its buffer.

use vstd::arithmetic::div_mod::{
    lemma_fundamental_div_mod, lemma_fundamental_div_mod_converse,
};
use vstd::prelude::*;

use crate::bytes::sample_of;
use crate::rt::{
    law_captured_frames_read_back, law_frames_stay_in_their_packet, overwrite, sample_bytes,
    stored_sample, StreamView,
};

verus! {

/// The sample in the container of `container` bytes at `at`: a container of
/// two bytes lacks the low byte, one of four has a byte below it.
pub open spec fn ring_sample(memory: Seq<u8>, at: int, container: int) -> int {
    if container == 2 {
        sample_of(memory[at + 1], memory[at], 0)
    } else {
        sample_of(memory[at + 3], memory[at + 2], memory[at + 1])
    }
}

/// Whether frame `n`, counted since the ring was prepared, is frame `within` of
/// packet `packet` in round `round` of the ring: the bytes of the frames before
/// it are those of whole rounds, of the packets before its own and of the
/// frames before it there.
pub open spec fn is_place(ring: StreamView, n: int, round: int, packet: int, within: int) -> bool {
    &&& 0 <= round
    &&& 0 <= packet < ring.buffers.len()
    &&& 0 <= within
    &&& (within + 1) * (2 * ring.container) <= ring.packet_bytes
    &&& n * (2 * ring.container) == (round * ring.buffers.len() + packet) * ring.packet_bytes
        + within * (2 * ring.container)
}

/// Where frame `within` of packet `packet` begins in the buffer of its packet.
pub open spec fn place_start(ring: StreamView, packet: int, within: int) -> int {
    (if packet == 0 {
        ring.first_offset
    } else {
        0
    }) + within * (2 * ring.container)
}

/// Whether the ring of `ring` has in its memory, as frame `n`, the samples
/// `left` and `right`.
pub open spec fn holds(
    ring: StreamView,
    n: int,
    round: int,
    packet: int,
    within: int,
    left: int,
    right: int,
) -> bool {
    let at = place_start(ring, packet, within);
    is_place(ring, n, round, packet, within) ==> {
        &&& ring_sample(ring.buffers[packet], at, ring.container) == left
        &&& ring_sample(ring.buffers[packet], at + ring.container, ring.container) == right
    }
}

/// The frames of a packet fill it.
proof fn lemma_frames_fill_packets(ring: StreamView)
    requires
        ring.wf(),
        ring.buffers.len() > 0,
    ensures
        ring.frames_per_packet() >= 1,
        ring.frames_per_packet() * (2 * ring.container) == ring.packet_bytes,
{
    let align = 2 * ring.container;
    let bytes = ring.packet_bytes;
    let per = ring.frames_per_packet();
    assert(per * align == bytes && per >= 1) by (nonlinear_arith)
        requires
            bytes > 0,
            align > 0,
            bytes % align == 0,
            per == bytes / align,
    ;
}

/// The place of a frame, in frames.
proof fn lemma_place(ring: StreamView, n: int, round: int, packet: int, within: int)
    requires
        ring.wf(),
        ring.buffers.len() > 0,
        is_place(ring, n, round, packet, within),
    ensures
        0 <= within < ring.frames_per_packet(),
        n == (round * ring.buffers.len() + packet) * ring.frames_per_packet() + within,
        n >= 0,
        n / ring.frames_per_packet() == round * ring.buffers.len() + packet,
        n % ring.frames_per_packet() == within,
        (n / ring.frames_per_packet()) % (ring.buffers.len() as int) == packet,
{
    lemma_frames_fill_packets(ring);
    let align = 2 * ring.container;
    let per = ring.frames_per_packet();
    let count = ring.buffers.len() as int;
    let whole = round * count + packet;
    assert(whole >= 0) by (nonlinear_arith)
        requires
            whole == round * count + packet,
            round >= 0,
            count > 0,
            packet >= 0,
    ;
    assert(within < per) by (nonlinear_arith)
        requires
            (within + 1) * align <= per * align,
            align > 0,
    ;
    assert(n == whole * per + within) by (nonlinear_arith)
        requires
            n * align == whole * (per * align) + within * align,
            align > 0,
    ;
    assert(n >= 0) by (nonlinear_arith)
        requires
            n == whole * per + within,
            whole >= 0,
            per >= 1,
            within >= 0,
    ;
    lemma_fundamental_div_mod_converse(n, per, whole, within);
    lemma_fundamental_div_mod_converse(whole, count, round, packet);
}

/// Every frame has a place.
pub proof fn law_every_frame_has_a_place(ring: StreamView, n: int) -> (place: (int, int, int))
    requires
        ring.wf(),
        ring.buffers.len() > 0,
        n >= 0,
    ensures
        is_place(ring, n, place.0, place.1, place.2),
{
    lemma_frames_fill_packets(ring);
    let align = 2 * ring.container;
    let per = ring.frames_per_packet();
    let count = ring.buffers.len() as int;
    let whole = n / per;
    let within = n % per;
    let round = whole / count;
    let packet = whole % count;
    lemma_fundamental_div_mod(n, per);
    lemma_fundamental_div_mod(whole, count);
    assert(whole >= 0 && 0 <= within < per && round >= 0 && 0 <= packet < count)
        by (nonlinear_arith)
        requires
            n >= 0,
            per >= 1,
            count >= 1,
            whole == n / per,
            within == n % per,
            round == whole / count,
            packet == whole % count,
    ;
    assert((within + 1) * align <= per * align) by (nonlinear_arith)
        requires
            within < per,
            align > 0,
    ;
    assert(n * align == (round * count + packet) * (per * align) + within * align)
        by (nonlinear_arith)
        requires
            n == per * whole + within,
            whole == count * round + packet,
    ;
    (round, packet, within)
}

/// A frame has no second place.
pub proof fn law_places_are_unique(
    ring: StreamView,
    n: int,
    first: (int, int, int),
    second: (int, int, int),
)
    requires
        ring.wf(),
        ring.buffers.len() > 0,
        is_place(ring, n, first.0, first.1, first.2),
        is_place(ring, n, second.0, second.1, second.2),
    ensures
        first == second,
{
    lemma_place(ring, n, first.0, first.1, first.2);
    lemma_place(ring, n, second.0, second.1, second.2);
    let count = ring.buffers.len() as int;
    assert(first.0 == second.0) by (nonlinear_arith)
        requires
            first.0 * count + first.1 == second.0 * count + first.1,
            count > 0,
    ;
}

/// The first frame is the first of packet 0. The frame after another is the
/// next one of its packet, or after the last frame of a packet the first of
/// the packet that follows, which after the last packet is packet 0.
pub proof fn law_packets_follow_one_another(
    ring: StreamView,
    n: int,
    round: int,
    packet: int,
    within: int,
)
    requires
        ring.wf(),
        ring.buffers.len() > 0,
        is_place(ring, n, round, packet, within),
    ensures
        is_place(ring, 0, 0, 0, 0),
        (within + 1) * (2 * ring.container) < ring.packet_bytes ==> is_place(
            ring,
            n + 1,
            round,
            packet,
            within + 1,
        ),
        (within + 1) * (2 * ring.container) == ring.packet_bytes && packet + 1
            < ring.buffers.len() ==> is_place(ring, n + 1, round, packet + 1, 0),
        (within + 1) * (2 * ring.container) == ring.packet_bytes && packet + 1
            == ring.buffers.len() ==> is_place(ring, n + 1, round + 1, 0, 0),
{
    lemma_frames_fill_packets(ring);
    lemma_place(ring, n, round, packet, within);
    let align = 2 * ring.container;
    let per = ring.frames_per_packet();
    let count = ring.buffers.len() as int;
    assert(align <= per * align) by (nonlinear_arith)
        requires
            per >= 1,
            align > 0,
    ;
    assert((0 * count + 0) * (per * align) == 0) by (nonlinear_arith);
    assert((n + 1) * align == n * align + align) by (nonlinear_arith);
    assert((within + 1) * align == within * align + align) by (nonlinear_arith);
    if (within + 1) * align < per * align {
        assert((within + 2) * align <= per * align) by (nonlinear_arith)
            requires
                (within + 1) * align < per * align,
                align > 0,
        ;
        assert(((within + 1) + 1) * align == (within + 2) * align);
    } else {
        let whole = round * count + packet;
        assert((whole + 1) * (per * align) == whole * (per * align) + per * align)
            by (nonlinear_arith);
        assert((round + 1) * count == round * count + count) by (nonlinear_arith);
    }
}

/// The frame that moves next lies within its packet's buffer, in the place
/// that its number gives it, and is read from there.
pub proof fn law_frames_are_read_from_their_place(
    stream: StreamView,
    round: int,
    packet: int,
    within: int,
)
    requires
        stream.wf(),
        stream.buffers.len() > 0,
        is_place(stream, stream.frames, round, packet, within),
    ensures
        0 <= place_start(stream, packet, within),
        place_start(stream, packet, within) + 2 * stream.container
            <= stream.buffers[packet].len(),
        stream.next_frame().0 == ring_sample(
            stream.buffers[packet],
            place_start(stream, packet, within),
            stream.container,
        ),
        stream.next_frame().1 == ring_sample(
            stream.buffers[packet],
            place_start(stream, packet, within) + stream.container,
            stream.container,
        ),
{
    lemma_place(stream, stream.frames, round, packet, within);
    law_frames_stay_in_their_packet(stream);
}

/// Of two frames less than a round apart, none takes a byte of the other.
pub proof fn law_places_do_not_overlap(
    ring: StreamView,
    first: int,
    second: int,
    place: (int, int, int),
    other: (int, int, int),
)
    requires
        ring.wf(),
        ring.buffers.len() > 0,
        is_place(ring, first, place.0, place.1, place.2),
        is_place(ring, second, other.0, other.1, other.2),
        first < second,
        (second - first) * (2 * ring.container) < ring.buffers.len() * ring.packet_bytes,
    ensures
        place.1 != other.1 || place_start(ring, place.1, place.2) + 2 * ring.container
            <= place_start(ring, other.1, other.2) || place_start(ring, other.1, other.2) + 2
            * ring.container <= place_start(ring, place.1, place.2),
{
    lemma_frames_fill_packets(ring);
    lemma_place(ring, first, place.0, place.1, place.2);
    lemma_place(ring, second, other.0, other.1, other.2);
    let align = 2 * ring.container;
    let per = ring.frames_per_packet();
    let count = ring.buffers.len() as int;
    assert(second - first < count * per) by (nonlinear_arith)
        requires
            (second - first) * align < count * (per * align),
            align > 0,
    ;
    if place.1 == other.1 && place.2 == other.2 {
        let rounds = other.0 - place.0;
        let packet = place.1;
        assert(second - first == rounds * (count * per)) by (nonlinear_arith)
            requires
                first == (place.0 * count + packet) * per + place.2,
                second == (other.0 * count + packet) * per + place.2,
                rounds == other.0 - place.0,
        ;
        assert(false) by (nonlinear_arith)
            requires
                second - first == rounds * (count * per),
                0 < second - first < count * per,
                count * per > 0,
        ;
    } else if place.1 == other.1 {
        let a = place.2;
        let b = other.2;
        assert(a * align + align <= b * align || b * align + align <= a * align)
            by (nonlinear_arith)
            requires
                a != b,
                align > 0,
        ;
    }
}

/// A captured frame is stored in the place that its number gives it: whole in
/// containers of four bytes, above a zero byte, and without the low byte in
/// containers of two. Every byte of the ring outside that place stays.
pub proof fn law_frames_are_stored_at_their_place(
    stream: StreamView,
    left: int,
    right: int,
    qpc: int,
    round: int,
    packet: int,
    within: int,
)
    requires
        stream.wf(),
        stream.buffers.len() > 0,
        -0x80_0000 <= left < 0x80_0000,
        -0x80_0000 <= right < 0x80_0000,
        is_place(stream, stream.frames, round, packet, within),
    ensures
        ({
            let after = stream.captured(left, right, qpc);
            let at = place_start(stream, packet, within);
            let memory = after.buffers[packet];
            let size = stream.container;
            &&& after.frames == stream.frames + 1
            &&& after.container == size
            &&& after.packet_bytes == stream.packet_bytes
            &&& after.first_offset == stream.first_offset
            &&& after.slot == stream.slot
            &&& after.buffers.len() == stream.buffers.len()
            &&& memory.len() == stream.buffers[packet].len()
            &&& size == 4 ==> memory[at] == 0 && memory[at + 4] == 0
            &&& size == 4 ==> ring_sample(memory, at, size) == left
            &&& size == 4 ==> ring_sample(memory, at + size, size) == right
            &&& size == 2 ==> ring_sample(memory, at, size) == left - left % 256
            &&& size == 2 ==> ring_sample(memory, at + size, size) == right - right % 256
            &&& forall|i: int|
                0 <= i < memory.len() && (i < at || i >= at + 2 * size) ==> #[trigger] memory[i]
                    == stream.buffers[packet][i]
            &&& forall|other: int|
                0 <= other < stream.buffers.len() && other != packet
                    ==> #[trigger] after.buffers[other] == stream.buffers[other]
        }),
{
    lemma_place(stream, stream.frames, round, packet, within);
    law_frames_stay_in_their_packet(stream);
    law_captured_frames_read_back(stream, left, right, qpc);
    let after = stream.captured(left, right, qpc);
    let at = place_start(stream, packet, within);
    let memory = after.buffers[packet];
    let size = stream.container;
    let data = sample_bytes(left, size) + sample_bytes(right, size);
    assert(memory == overwrite(stream.buffers[packet], at, data));
    if size == 4 {
        assert(memory[at] == data[0] && memory[at + 4] == data[4]);
    }
    let back = StreamView { frames: stream.frames, ..after };
    assert(back.frame_packet() == packet && back.frame_offset() == at);
    assert(back.next_frame() == (
        stored_sample(memory, at, size),
        stored_sample(memory, at + size, size),
    ));
}

/// A packet is finished by its last frame alone, and the packet reported is
/// the one, counted over all rounds, whose buffer was just moved through.
pub proof fn law_completions_name_their_packet(
    stream: StreamView,
    qpc: u64,
    round: int,
    packet: int,
    within: int,
)
    requires
        stream.wf(),
        stream.buffers.len() > 0,
        stream.frames < u64::MAX,
        is_place(stream, stream.frames, round, packet, within),
    ensures
        match stream.completion(qpc) {
            Some(done) => {
                &&& (within + 1) * (2 * stream.container) == stream.packet_bytes
                &&& done.packet == round * stream.buffers.len() + packet
                &&& done.packet as int % (stream.buffers.len() as int) == packet
                &&& done.qpc == qpc
                &&& stream.advanced(qpc as int).current_packet == (done.packet + 1) % 4294967296
                &&& stream.advanced(qpc as int).last_packet_start_qpc == qpc
            },
            None => {
                &&& (within + 1) * (2 * stream.container) < stream.packet_bytes
                &&& stream.advanced(qpc as int).current_packet == stream.current_packet
                &&& stream.advanced(qpc as int).last_packet_start_qpc
                    == stream.last_packet_start_qpc
            },
        },
        stream.advanced(qpc as int).frames == stream.frames + 1,
        stream.advanced(qpc as int).qpc == qpc,
        stream.advanced(qpc as int).buffers == stream.buffers,
{
    lemma_frames_fill_packets(stream);
    lemma_place(stream, stream.frames, round, packet, within);
    let align = 2 * stream.container;
    let per = stream.frames_per_packet();
    let n = stream.frames;
    let whole = round * stream.buffers.len() + packet;
    assert(0 <= whole <= n) by (nonlinear_arith)
        requires
            n == whole * per + within,
            n >= 0,
            0 <= within < per,
            per >= 1,
    ;
    if within + 1 == per {
        assert(n + 1 == (whole + 1) * per) by (nonlinear_arith)
            requires
                n == whole * per + within,
                within + 1 == per,
        ;
        lemma_fundamental_div_mod_converse(n + 1, per, whole + 1, 0);
    } else {
        lemma_fundamental_div_mod_converse(n + 1, per, whole, within + 1);
        assert((within + 1) * align < per * align) by (nonlinear_arith)
            requires
                within + 1 < per,
                align > 0,
        ;
    }
}

/// Playing a frame and capturing one move a stream alike: by one frame, at the
/// given time. Playing leaves the ring's memory as it is, and a stream without
/// packets where it is.
pub proof fn law_frames_move_one_by_one(stream: StreamView, left: int, right: int, qpc: int)
    ensures
        stream.buffers.len() == 0 ==> stream.rendered(qpc) == stream,
        stream.buffers.len() == 0 ==> stream.next_frame() == (0int, 0int),
        stream.buffers.len() == 0 ==> {
            let heard = stream.captured(left, right, qpc);
            &&& stream.completion(0) is None
            &&& heard.current_packet == stream.current_packet
            &&& heard.last_packet_start_qpc == stream.last_packet_start_qpc
            &&& heard.buffers == stream.buffers
        },
        stream.buffers.len() > 0 ==> {
            let played = stream.rendered(qpc);
            let heard = stream.captured(left, right, qpc);
            &&& played.buffers == stream.buffers
            &&& played.frames == stream.frames + 1
            &&& played.qpc == qpc
            &&& heard.frames == played.frames
            &&& heard.qpc == played.qpc
            &&& heard.current_packet == played.current_packet
            &&& heard.last_packet_start_qpc == played.last_packet_start_qpc
            &&& heard.slot == stream.slot && played.slot == stream.slot
            &&& heard.rate == stream.rate && played.rate == stream.rate
        },
        stream.captured(left, right, qpc).frames == stream.frames + 1,
        stream.captured(left, right, qpc).qpc == qpc,
{
}

} // verus!
