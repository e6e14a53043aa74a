//! The way of the samples while a capture transfer is answered: from the
//! device's bytes into the memory of the input ring, and from the memory of
//! the output rings into the bytes that are sent to the device.

use vstd::prelude::*;

use crate::audio::{lemma_with_running, AudioView, Mix, SlotCompletion};
use crate::bytes::{is_sample24, law_low_bytes_make_a_sample, sample_of};
use crate::mode2::{
    capture_check, capture_packet, check_error_count, is_tail, law_check_bytes_are_counted,
    law_empty_packets_carry_over, law_packets_join, law_playback_layout, playback_packet,
    rejection_reported, tail_after, Frame,
};
use crate::ring::{
    holds, is_place, law_completions_name_their_packet, law_every_frame_has_a_place, law_frames_are_read_from_their_place,
    law_frames_are_stored_at_their_place, law_places_do_not_overlap, place_start, ring_sample,
};
use crate::rt::{lemma_stored_shape, Slot, StreamView};
use crate::stream::{
    after_captures, after_renders, answered, count_packet, first_free, frame_count, input_frame,
    is_clean, is_sent, is_valid, lemma_first_free, next_frames, nominal_remainder, packet_data, packet_time, pass_end,
    pass_start, EngineView, IsoPacket, Pass, Stats,
};

verus! {

/// Whether stream `id` runs in `slot`.
pub open spec fn runs(audio: AudioView, slot: Slot, id: int) -> bool {
    &&& audio.running.contains(Some(id))
    &&& 0 <= id < audio.streams.len()
    &&& audio.streams[id] matches Some(stream) && stream.slot == slot
}

/// Two states of one ring.
spec fn same_ring(a: StreamView, b: StreamView) -> bool {
    &&& a.slot == b.slot
    &&& a.rate == b.rate
    &&& a.container == b.container
    &&& a.packet_bytes == b.packet_bytes
    &&& a.first_offset == b.first_offset
    &&& a.buffers.len() == b.buffers.len()
}

/// Frame `n` of a ring.
spec fn frame_at(ring: StreamView, n: int) -> (int, int) {
    (StreamView { frames: n, ..ring }).next_frame()
}

/// Whether a frame that many frames old is still in the ring.
spec fn is_recent(ring: StreamView, age: int) -> bool {
    age * (2 * ring.container) <= ring.buffers.len() * ring.packet_bytes
}

/// `now` is `before` after `moved` frames were played.
spec fn has_played(before: Option<StreamView>, now: Option<StreamView>, moved: int) -> bool {
    match before {
        Some(a) => now matches Some(b) && same_ring(a, b) && a.buffers == b.buffers && (
        a.buffers.len() > 0 ==> b.frames == a.frames + moved),
        None => now is None,
    }
}

/// What a container keeps of a sample.
pub open spec fn in_container(sample: int, container: int) -> int {
    if container == 2 {
        sample - sample % 256
    } else {
        sample
    }
}

/// `now` is `before` after the frames `heard` were stored.
spec fn has_stored(
    before: Option<StreamView>,
    now: Option<StreamView>,
    heard: Seq<(int, int)>,
) -> bool {
    match before {
        Some(a) => {
            &&& now matches Some(b)
            &&& ({
                let b = now->0;
                &&& same_ring(a, b)
                &&& b.frames == a.frames + heard.len()
                &&& a.buffers.len() > 0 ==> forall|k: int|
                    0 <= k < heard.len() && is_recent(a, heard.len() - k) ==> #[trigger] frame_at(
                        b,
                        a.frames + k,
                    ) == (in_container(heard[k].0, a.container), in_container(heard[k].1, a.container))
                &&& a.buffers.len() > 0 ==> forall|n: int|
                    0 <= n < a.frames && is_recent(a, b.frames - n) ==> #[trigger] frame_at(b, n)
                        == frame_at(a, n)
            })
        },
        None => now is None,
    }
}

/// Nothing but the running streams differs.
spec fn is_idle_kept(before: AudioView, now: AudioView) -> bool {
    &&& now.running == before.running
    &&& now.claimed == before.claimed
    &&& now.rate == before.rate
    &&& now.spec == before.spec
    &&& now.prepared == before.prepared
    &&& now.engine == before.engine
    &&& now.streams.len() == before.streams.len()
    &&& forall|id: int|
        0 <= id < before.streams.len() && !before.running.contains(Some(id))
            ==> #[trigger] now.streams[id] == before.streams[id]
}

/// `now` is `before` after `moved` frames were played and `heard` was stored.
#[verifier::opaque]
spec fn follows(before: AudioView, now: AudioView, moved: int, heard: Seq<(int, int)>) -> bool {
    &&& now.wf()
    &&& is_idle_kept(before, now)
    &&& has_played(
        before.running_stream(Slot::Output12),
        now.running_stream(Slot::Output12),
        moved,
    )
    &&& has_played(
        before.running_stream(Slot::Output34),
        now.running_stream(Slot::Output34),
        moved,
    )
    &&& has_stored(
        before.running_stream(Slot::Input12),
        now.running_stream(Slot::Input12),
        heard,
    )
}

/// What runs in a slot is found there.
proof fn lemma_runs(audio: AudioView, slot: Slot, id: int)
    requires
        audio.wf(),
        runs(audio, slot, id),
    ensures
        audio.running[slot.index_spec()] == Some(id),
        audio.running_stream(slot) == audio.streams[id],
{
    let place = choose|i: int| 0 <= i < audio.running.len() && audio.running[i] == Some(id);
    assert(audio.slot_wf(Slot::Output12));
    assert(audio.slot_wf(Slot::Output34));
    assert(audio.slot_wf(Slot::Input12));
    assert(place == 0 || place == 1 || place == 2);
}

/// Where no stream runs in a slot none is found there.
proof fn lemma_runs_not(audio: AudioView, slot: Slot)
    requires
        audio.wf(),
        forall|id: int| !runs(audio, slot, id),
    ensures
        audio.running_stream(slot) is None,
{
    assert(audio.slot_wf(slot));
    if let Some(id) = audio.running[slot.index_spec()] {
        assert(runs(audio, slot, id));
    }
}

/// A frame that was stored is found in its place, and the frames of the round
/// before it are still there.
proof fn lemma_stored_frame(before: StreamView, now: StreamView, heard: Seq<(int, int)>, qpc: int,
    left: int, right: int)
    requires
        before.wf(),
        now.wf(),
        has_stored(Some(before), Some(now), heard),
        is_sample24(left),
        is_sample24(right),
    ensures
        has_stored(
            Some(before),
            Some(now.captured(left, right, qpc)),
            heard.push((left, right)),
        ),
        now.captured(left, right, qpc).wf(),
{
    let after = now.captured(left, right, qpc);
    let longer = heard.push((left, right));
    lemma_stored_shape(now, left, right);
    if now.buffers.len() > 0 {
        let place = law_every_frame_has_a_place(now, now.frames);
        law_frames_are_stored_at_their_place(
            now,
            left,
            right,
            qpc,
            place.0,
            place.1,
            place.2,
        );
        let stored = StreamView { frames: now.frames, ..after };
        assert(is_place(stored, now.frames, place.0, place.1, place.2));
        law_frames_are_read_from_their_place(stored, place.0, place.1, place.2);
        assert(frame_at(after, now.frames) == (
            in_container(left, now.container),
            in_container(right, now.container),
        ));
        assert forall|n: int|
            0 <= n < now.frames && is_recent(before, after.frames - n) implies #[trigger] frame_at(
            after,
            n,
        ) == frame_at(now, n) by {
            let old_place = law_every_frame_has_a_place(now, n);
            assert((now.frames - n) * (2 * now.container) < (after.frames - n) * (2
                * now.container)) by (nonlinear_arith)
                requires
                    after.frames == now.frames + 1,
                    now.container > 0,
            ;
            law_places_do_not_overlap(now, n, now.frames, old_place, place);
            let a = StreamView { frames: n, ..now };
            let b = StreamView { frames: n, ..after };
            assert(is_place(a, n, old_place.0, old_place.1, old_place.2));
            assert(is_place(b, n, old_place.0, old_place.1, old_place.2));
            law_frames_are_read_from_their_place(a, old_place.0, old_place.1, old_place.2);
            law_frames_are_read_from_their_place(b, old_place.0, old_place.1, old_place.2);
        }
        assert forall|k: int|
            0 <= k < longer.len() && is_recent(before, longer.len() - k) implies #[trigger] frame_at(
            after,
            before.frames + k,
        ) == (
            in_container(longer[k].0, before.container),
            in_container(longer[k].1, before.container),
        ) by {
            if k < heard.len() {
                lemma_younger(before, heard.len() - k);
                assert(longer[k] == heard[k]);
                assert(frame_at(after, before.frames + k) == frame_at(now, before.frames + k));
            }
        }
        assert forall|n: int|
            0 <= n < before.frames && is_recent(before, after.frames - n) implies #[trigger] frame_at(
            after,
            n,
        ) == frame_at(before, n) by {
            lemma_younger(before, now.frames - n);
            assert(frame_at(after, n) == frame_at(now, n));
        }
    }
}

/// What is still in a ring one frame later is in it now.
proof fn lemma_younger(ring: StreamView, age: int)
    requires
        ring.container > 0,
        is_recent(ring, age + 1),
    ensures
        is_recent(ring, age),
{
    let align = 2 * ring.container;
    assert(age * align <= (age + 1) * align) by (nonlinear_arith)
        requires
            align > 0,
    ;
}

/// Storing a frame.
proof fn lemma_capture(
    before: AudioView,
    mix: Mix,
    moved: int,
    heard: Seq<(int, int)>,
    left: int,
    right: int,
    qpc: u64,
)
    requires
        before.wf(),
        follows(before, mix.audio, moved, heard),
        is_sample24(left),
        is_sample24(right),
    ensures
        follows(before, mix.captured(left, right, qpc).audio, moved, heard.push((left, right))),
{
    reveal(follows);
    assert(before.slot_wf(Slot::Input12));
    assert(mix.audio.slot_wf(Slot::Input12));
    match mix.audio.running_stream(Slot::Input12) {
        Some(now) => {
            let first = before.running_stream(Slot::Input12)->0;
            let after = now.captured(left, right, qpc as int);
            lemma_stored_frame(first, now, heard, qpc as int, left, right);
            lemma_with_running(mix.audio, Slot::Input12, after);
            let last = mix.audio.with_running(Slot::Input12, after);
            assert(last.running_stream(Slot::Output12) == mix.audio.running_stream(Slot::Output12));
            assert(last.running_stream(Slot::Output34) == mix.audio.running_stream(Slot::Output34));
        },
        None => {},
    }
}

/// The frames of inputs 1/2 that a packet delivers.
spec fn delivered(data: Seq<u8>, clean: bool, count: nat) -> Seq<(int, int)> {
    Seq::new(count, |i: int| input_frame(data, clean, i))
}

/// Storing the frames of a packet.
proof fn lemma_captures(
    before: AudioView,
    mix: Mix,
    moved: int,
    heard: Seq<(int, int)>,
    data: Seq<u8>,
    clean: bool,
    count: nat,
    qpc: u64,
)
    requires
        before.wf(),
        follows(before, mix.audio, moved, heard),
    ensures
        follows(
            before,
            after_captures(mix, data, clean, count, qpc).audio,
            moved,
            heard + delivered(data, clean, count),
        ),
    decreases count,
{
    if count == 0 {
        assert(heard + delivered(data, clean, count) =~= heard);
    } else {
        let less = (count - 1) as nat;
        let frame = input_frame(data, clean, count - 1);
        lemma_captures(before, mix, moved, heard, data, clean, less, qpc);
        lemma_capture(
            before,
            after_captures(mix, data, clean, less, qpc),
            moved,
            heard + delivered(data, clean, less),
            frame.0,
            frame.1,
            qpc,
        );
        assert((heard + delivered(data, clean, less)).push(frame) =~= heard + delivered(
            data,
            clean,
            count,
        ));
    }
}

/// Playing a frame of one output pair.
proof fn lemma_render_slot(mix: Mix, slot: Slot, qpc: u64)
    requires
        mix.audio.wf(),
    ensures
        mix.rendered_slot(slot, qpc).audio.wf(),
        is_idle_kept(mix.audio, mix.rendered_slot(slot, qpc).audio),
        has_played(
            mix.audio.running_stream(slot),
            mix.rendered_slot(slot, qpc).audio.running_stream(slot),
            1,
        ),
        forall|other: Slot|
            other != slot ==> #[trigger] mix.rendered_slot(slot, qpc).audio.running_stream(other)
                == mix.audio.running_stream(other),
{
    assert(mix.audio.slot_wf(slot));
    match mix.audio.running_stream(slot) {
        Some(stream) => {
            lemma_with_running(mix.audio, slot, stream.rendered(qpc as int));
        },
        None => {},
    }
}

/// Playing a frame.
proof fn lemma_render(
    before: AudioView,
    mix: Mix,
    moved: int,
    heard: Seq<(int, int)>,
    qpc: u64,
)
    requires
        follows(before, mix.audio, moved, heard),
    ensures
        follows(before, mix.rendered(qpc).audio, moved + 1, heard),
{
    reveal(follows);
    let first = mix.rendered_slot(Slot::Output12, qpc);
    let last = mix.rendered(qpc);
    lemma_render_slot(mix, Slot::Output12, qpc);
    lemma_render_slot(first, Slot::Output34, qpc);
    assert(first.audio.running_stream(Slot::Output34) == mix.audio.running_stream(Slot::Output34));
    assert(first.audio.running_stream(Slot::Input12) == mix.audio.running_stream(Slot::Input12));
    assert(last.audio.running_stream(Slot::Output12) == first.audio.running_stream(Slot::Output12));
    assert(last.audio.running_stream(Slot::Input12) == first.audio.running_stream(Slot::Input12));
}

/// Frame `k` that `slot` plays.
spec fn pair_at(audio: AudioView, slot: Slot, k: int) -> (int, int) {
    match audio.running_stream(slot) {
        Some(stream) => frame_at(stream, stream.frames + k),
        None => (0, 0),
    }
}

/// The first `count` frames that are played.
spec fn outgoing(audio: AudioView, count: nat) -> Seq<Frame> {
    Seq::new(
        count,
        |k: int|
            {
                let first = pair_at(audio, Slot::Output12, k);
                let second = pair_at(audio, Slot::Output34, k);
                [first.0 as i32, first.1 as i32, second.0 as i32, second.1 as i32]
            },
    )
}

/// The next pair of a slot that has played `moved` frames.
proof fn lemma_next_pair(before: AudioView, now: AudioView, slot: Slot, moved: int)
    requires
        has_played(before.running_stream(slot), now.running_stream(slot), moved),
    ensures
        now.next_pair(slot) == pair_at(before, slot, moved),
{
    if let Some(a) = before.running_stream(slot) {
        let b = now.running_stream(slot)->0;
        if a.buffers.len() > 0 {
            let c = StreamView { frames: a.frames + moved, ..a };
            assert(b.next_frame() == c.next_frame());
        }
    }
}

/// The next frame is the one that is due.
proof fn lemma_next_frame(before: AudioView, now: AudioView, moved: nat, heard: Seq<(int, int)>)
    requires
        follows(before, now, moved as int, heard),
    ensures
        outgoing(before, moved).push(now.next_frame()) == outgoing(before, moved + 1),
{
    reveal(follows);
    lemma_next_pair(before, now, Slot::Output12, moved as int);
    lemma_next_pair(before, now, Slot::Output34, moved as int);
    assert(outgoing(before, moved).push(now.next_frame()) =~= outgoing(before, moved + 1));
}

/// Playing the frames of a packet.
proof fn lemma_renders(
    before: AudioView,
    mix: Mix,
    moved: nat,
    heard: Seq<(int, int)>,
    count: nat,
    qpc: u64,
)
    requires
        follows(before, mix.audio, moved as int, heard),
    ensures
        follows(before, after_renders(mix, count, qpc).audio, (moved + count) as int, heard),
        outgoing(before, moved) + next_frames(mix, count, qpc) == outgoing(before, moved + count),
    decreases count,
{
    let joined = outgoing(before, moved) + next_frames(mix, count, qpc);
    if count > 0 {
        let less = (count - 1) as nat;
        lemma_renders(before, mix, moved, heard, less, qpc);
        let last = after_renders(mix, less, qpc);
        lemma_render(before, last, (moved + less) as int, heard, qpc);
        lemma_next_frame(before, last.audio, moved + less, heard);
        let shorter = outgoing(before, moved) + next_frames(mix, less, qpc);
        assert(joined =~= shorter.push(last.audio.next_frame()));
    } else {
        assert(joined =~= outgoing(before, moved + count));
    }
}

/// All frames of inputs 1/2 that the first `count` packets deliver.
spec fn all_delivered(
    start: Pass,
    engine: EngineView,
    packets: Seq<IsoPacket>,
    buffer: Seq<u8>,
    completed: u64,
    playing: bool,
    count: nat,
) -> Seq<(int, int)>
    decreases count,
{
    if count == 0 {
        seq![]
    } else {
        let less = (count - 1) as nat;
        let packet = packets[count - 1];
        let max = engine.max_packet_bytes;
        all_delivered(start, engine, packets, buffer, completed, playing, less) + delivered(
            packet_data(packet, max, buffer),
            is_clean(packet, max, buffer),
            frame_count(
                packet,
                max,
                answered(start, engine, packets, buffer, completed, playing, less).remainder,
                engine.rate_hz,
            ) as nat,
        )
    }
}

/// Packets were answered: `heard` was stored, and `moved` frames were played
/// behind what `tail` had left over.
#[verifier::opaque]
spec fn has_answered(
    audio: AudioView,
    tail: Seq<Seq<u8>>,
    pass: Pass,
    moved: nat,
    heard: Seq<(int, int)>,
) -> bool {
    &&& follows(audio, pass.mix.audio, moved as int, heard)
    &&& pass.data == playback_packet(tail, outgoing(audio, moved))
    &&& pass.tail == tail_after(tail, outgoing(audio, moved))
}

/// Answering a packet.
proof fn lemma_answered_packet(
    audio: AudioView,
    tail: Seq<Seq<u8>>,
    pass: Pass,
    moved: nat,
    heard: Seq<(int, int)>,
    engine: EngineView,
    packet: IsoPacket,
    buffer: Seq<u8>,
    qpc: u64,
    playing: bool,
)
    requires
        audio.wf(),
        is_tail(tail),
        has_answered(audio, tail, pass, moved, heard),
    ensures
        ({
            let max = engine.max_packet_bytes;
            let count = frame_count(packet, max, pass.remainder, engine.rate_hz) as nat;
            let all = heard + delivered(
                packet_data(packet, max, buffer),
                is_clean(packet, max, buffer),
                count,
            );
            let now = if playing {
                moved + count
            } else {
                moved
            };
            let after = pass.after_packet(engine, packet, buffer, qpc, playing);
            has_answered(audio, tail, after, now, all)
        }),
{
    reveal(has_answered);
    let max = engine.max_packet_bytes;
    let data = packet_data(packet, max, buffer);
    let clean = is_clean(packet, max, buffer);
    let count = frame_count(packet, max, pass.remainder, engine.rate_hz) as nat;
    let all = heard + delivered(data, clean, count);
    lemma_captures(audio, pass.mix, moved as int, heard, data, clean, count, qpc);
    let mix = after_captures(pass.mix, data, clean, count, qpc);
    if playing {
        lemma_renders(audio, mix, moved, all, count, qpc);
        law_packets_join(tail, outgoing(audio, moved), next_frames(mix, count, qpc));
    }
}

/// Before any packet nothing has moved.
proof fn lemma_nothing_answered(engine: EngineView, audio: AudioView)
    requires
        audio.wf(),
        is_tail(engine.tail),
    ensures
        has_answered(audio, engine.tail, pass_start(engine, audio), 0, seq![]),
{
    reveal(has_answered);
    reveal(follows);
    law_empty_packets_carry_over(engine.tail);
    assert(outgoing(audio, 0) =~= seq![]);
    assert(pass_start(engine, audio).data =~= playback_packet(engine.tail, outgoing(audio, 0)));
}

/// Answering packets.
proof fn lemma_answered(
    engine: EngineView,
    audio: AudioView,
    packets: Seq<IsoPacket>,
    buffer: Seq<u8>,
    completed: u64,
    playing: bool,
    count: nat,
)
    requires
        audio.wf(),
        is_tail(engine.tail),
    ensures
        ({
            let start = pass_start(engine, audio);
            let pass = answered(start, engine, packets, buffer, completed, playing, count);
            let heard = all_delivered(start, engine, packets, buffer, completed, playing, count);
            let moved = if playing {
                heard.len()
            } else {
                0
            };
            has_answered(audio, engine.tail, pass, moved, heard)
        }),
    decreases count,
{
    let start = pass_start(engine, audio);
    let pass = answered(start, engine, packets, buffer, completed, playing, count);
    if count == 0 {
        lemma_nothing_answered(engine, audio);
    } else {
        let less = (count - 1) as nat;
        lemma_answered(engine, audio, packets, buffer, completed, playing, less);
        let before = answered(start, engine, packets, buffer, completed, playing, less);
        let heard = all_delivered(start, engine, packets, buffer, completed, playing, less);
        let moved = if playing {
            heard.len()
        } else {
            0
        };
        lemma_answered_packet(
            audio,
            engine.tail,
            before,
            moved,
            heard,
            engine,
            packets[count - 1],
            buffer,
            packet_time(engine, completed, count - 1),
            playing,
        );
    }
}

/// Whether every check byte of a packet, its two top bits aside, is the one due
/// in its place.
pub open spec fn checks_hold(bytes: Seq<u8>) -> bool {
    forall|i: int|
        0 <= i < bytes.len() && i % 8 < 2 ==> (#[trigger] bytes[i]) % 64 == 2 * (i % 8) + 1 - (i / 8)
            % 2
}

/// Whether `heard` is what a capture packet stands for on inputs 1/2. A packet
/// that came through, in whole frames and within the limit, brings the left
/// and right samples of the device's first stream, or silence where a check
/// byte is wrong. Any other packet took a microframe, whose frames are silent:
/// what `before` and `after` it is left of a frame, in 8000ths, is carried.
pub open spec fn is_heard(
    engine: EngineView,
    packet: IsoPacket,
    buffer: Seq<u8>,
    before: int,
    after: int,
    heard: Seq<(int, int)>,
) -> bool {
    if packet.status == 0 && packet.length <= engine.max_packet_bytes && packet.length % 16 == 0 {
        let bytes = buffer.subrange(packet.offset as int, packet.offset + packet.length);
        &&& packet.offset + packet.length <= buffer.len()
        &&& after == before
        &&& 16 * heard.len() == packet.length
        &&& forall|n: int|
            0 <= n < heard.len() ==> #[trigger] heard[n] == (if checks_hold(bytes) {
                (
                    sample_of(bytes[16 * n + 10], bytes[16 * n + 12], bytes[16 * n + 14]),
                    sample_of(bytes[16 * n + 2], bytes[16 * n + 4], bytes[16 * n + 6]),
                )
            } else {
                (0, 0)
            })
    } else {
        &&& 0 <= after < 8000
        &&& 8000 * heard.len() + after == before + engine.rate_hz
        &&& forall|n: int| 0 <= n < heard.len() ==> #[trigger] heard[n] == (0int, 0int)
    }
}

/// Whether `heard` is what each packet of a capture transfer stands for, with
/// `carried` between them.
pub open spec fn are_heard(
    engine: EngineView,
    packets: Seq<IsoPacket>,
    buffer: Seq<u8>,
    carried: Seq<int>,
    heard: Seq<Seq<(int, int)>>,
) -> bool {
    &&& packets.len() == 8
    &&& heard.len() == 8
    &&& carried.len() == 9
    &&& carried[0] == engine.remainder
    &&& forall|i: int|
        0 <= i < 8 ==> is_heard(
            engine,
            packets[i],
            buffer,
            carried[i],
            carried[i + 1],
            #[trigger] heard[i],
        )
}

/// The frames of the first `count` packets, one after the other.
pub open spec fn joined(heard: Seq<Seq<(int, int)>>, count: int) -> Seq<(int, int)>
    decreases count,
{
    if count <= 0 {
        seq![]
    } else {
        joined(heard, count - 1) + heard[count - 1]
    }
}

/// Whether the check bytes of frame `n` are those due there.
spec fn frame_checks(bytes: Seq<u8>, n: int) -> bool {
    &&& bytes[16 * n] % 64 == 1
    &&& bytes[16 * n + 1] % 64 == 3
    &&& bytes[16 * n + 8] % 64 == 0
    &&& bytes[16 * n + 9] % 64 == 2
}

/// No check byte counts as an error where those of every frame are right.
proof fn lemma_frame_checks(bytes: Seq<u8>, frames: nat)
    ensures
        check_error_count(bytes, 2 * frames) == 0 <==> forall|n: int|
            0 <= n < frames ==> #[trigger] frame_checks(bytes, n),
    decreases frames,
{
    if frames > 0 {
        lemma_frame_checks(bytes, (frames - 1) as nat);
        law_check_bytes_are_counted(bytes, frames - 1);
        if forall|n: int| 0 <= n < frames ==> #[trigger] frame_checks(bytes, n) {
            assert(frame_checks(bytes, frames - 1));
        }
    } else {
        law_check_bytes_are_counted(bytes, 0);
    }
}

/// The check bytes of a packet are right where none counts as an error.
proof fn lemma_checks(bytes: Seq<u8>, frames: nat)
    requires
        16 * frames == bytes.len(),
    ensures
        check_error_count(bytes, 2 * frames) == 0 <==> checks_hold(bytes),
{
    lemma_frame_checks(bytes, frames);
    if forall|n: int| 0 <= n < frames ==> #[trigger] frame_checks(bytes, n) {
        assert forall|i: int| 0 <= i < bytes.len() && i % 8 < 2 implies (#[trigger] bytes[i]) % 64
            == 2 * (i % 8) + 1 - (i / 8) % 2 by {
            let n = i / 16;
            assert(frame_checks(bytes, n));
            if i % 16 < 8 {
                assert(i / 8 == 2 * n && (i == 16 * n || i == 16 * n + 1));
            } else {
                assert(i / 8 == 2 * n + 1 && (i == 16 * n + 8 || i == 16 * n + 9));
            }
        }
    }
    if checks_hold(bytes) {
        assert forall|n: int| 0 <= n < frames implies #[trigger] frame_checks(bytes, n) by {
            assert((16 * n) % 8 == 0 && (16 * n) / 8 == 2 * n);
            assert((16 * n + 1) % 8 == 1 && (16 * n + 1) / 8 == 2 * n);
            assert((16 * n + 8) % 8 == 0 && (16 * n + 8) / 8 == 2 * n + 1);
            assert((16 * n + 9) % 8 == 1 && (16 * n + 9) / 8 == 2 * n + 1);
            assert(bytes[16 * n] % 64 == 1);
            assert(bytes[16 * n + 1] % 64 == 3);
            assert(bytes[16 * n + 8] % 64 == 0);
            assert(bytes[16 * n + 9] % 64 == 2);
        }
    }
}

/// What a packet delivers is what it stands for.
proof fn lemma_heard(
    engine: EngineView,
    packet: IsoPacket,
    buffer: Seq<u8>,
    before: int,
    after: int,
    heard: Seq<(int, int)>,
)
    requires
        engine.wf(),
        0 <= before < 8000,
        is_heard(engine, packet, buffer, before, after, heard),
    ensures
        delivered(
            packet_data(packet, engine.max_packet_bytes, buffer),
            is_clean(packet, engine.max_packet_bytes, buffer),
            frame_count(packet, engine.max_packet_bytes, before, engine.rate_hz) as nat,
        ) == heard,
        frame_count(packet, engine.max_packet_bytes, before, engine.rate_hz) == heard.len(),
        heard.len() <= 32,
        after == (if is_valid(packet, engine.max_packet_bytes) {
            before
        } else {
            nominal_remainder(before, engine.rate_hz)
        }),
        0 <= after < 8000,
{
    let max = engine.max_packet_bytes;
    let data = packet_data(packet, max, buffer);
    let clean = is_clean(packet, max, buffer);
    let count = frame_count(packet, max, before, engine.rate_hz) as nat;
    if is_valid(packet, max) {
        assert(16 * count == data.len());
        lemma_checks(data, count);
    }
    assert forall|n: int| 0 <= n < count implies #[trigger] delivered(data, clean, count)[n]
        == heard[n] by {}
    assert(delivered(data, clean, count) =~= heard);
}

/// What a transfer delivers is what its packets stand for.
proof fn lemma_all_heard(
    engine: EngineView,
    audio: AudioView,
    packets: Seq<IsoPacket>,
    buffer: Seq<u8>,
    completed: u64,
    playing: bool,
    carried: Seq<int>,
    heard: Seq<Seq<(int, int)>>,
    count: nat,
)
    requires
        engine.wf(),
        are_heard(engine, packets, buffer, carried, heard),
        count <= 8,
    ensures
        ({
            let start = pass_start(engine, audio);
            let pass = answered(start, engine, packets, buffer, completed, playing, count);
            &&& pass.remainder == carried[count as int]
            &&& 0 <= pass.remainder < 8000
            &&& all_delivered(start, engine, packets, buffer, completed, playing, count) == joined(
                heard,
                count as int,
            )
            &&& joined(heard, count as int).len() <= 32 * count
            &&& playing ==> pass.packets.len() == count
            &&& playing ==> pass.data.len() == 16 * joined(heard, count as int).len()
            &&& playing ==> forall|i: int|
                0 <= i < count ==> {
                    &&& (#[trigger] pass.packets[i]).offset == 16 * joined(heard, i).len()
                    &&& pass.packets[i].length == 16 * heard[i].len()
                }
        }),
    decreases count,
{
    let start = pass_start(engine, audio);
    if count > 0 {
        let less = (count - 1) as nat;
        lemma_all_heard(
            engine,
            audio,
            packets,
            buffer,
            completed,
            playing,
            carried,
            heard,
            less,
        );
        let before = answered(start, engine, packets, buffer, completed, playing, less);
        let pass = answered(start, engine, packets, buffer, completed, playing, count);
        let last = count - 1;
        assert(is_heard(
            engine,
            packets[last],
            buffer,
            carried[last],
            carried[last + 1],
            heard[last],
        ));
        lemma_heard(
            engine,
            packets[last],
            buffer,
            carried[last],
            carried[last + 1],
            heard[last],
        );
        if playing {
            assert forall|i: int| 0 <= i < count implies (#[trigger] pass.packets[i]).offset == 16
                * joined(heard, i).len() && pass.packets[i].length == 16 * heard[i].len() by {
                if i < last {
                    assert(pass.packets[i] == before.packets[i]);
                }
            }
        }
    }
}

/// While a capture transfer is answered, the frames of inputs 1/2 that its
/// packets stand for are stored in the running input stream's ring one after
/// the other, whether or not anything is played. Frame `k` of them is in the
/// ring's memory as the ring's next frame but `k`, as long as no later one has
/// gone round the ring and taken its place.
pub proof fn law_answers_store_what_was_heard(
    engine: EngineView,
    audio: AudioView,
    packets: Seq<IsoPacket>,
    buffer: Seq<u8>,
    completed: u64,
    carried: Seq<int>,
    heard: Seq<Seq<(int, int)>>,
    id: int,
    k: int,
    place: (int, int, int),
)
    requires
        engine.wf(),
        audio.wf(),
        is_tail(engine.tail),
        are_heard(engine, packets, buffer, carried, heard),
        runs(audio, Slot::Input12, id),
        0 <= k < joined(heard, 8).len(),
    ensures
        ({
            let end = pass_end(engine, audio, packets, buffer, completed);
            let all = joined(heard, 8);
            let ring = audio.streams[id]->0;
            &&& end.remainder == carried[8]
            &&& end.mix.audio.streams[id] matches Some(after) && {
                &&& after.frames == ring.frames + all.len()
                &&& after.container == ring.container
                &&& after.packet_bytes == ring.packet_bytes
                &&& after.first_offset == ring.first_offset
                &&& after.buffers.len() == ring.buffers.len()
                &&& ring.buffers.len() > 0 && (all.len() - k) * (2 * ring.container)
                    <= ring.buffers.len() * ring.packet_bytes ==> holds(
                    after,
                    ring.frames + k,
                    place.0,
                    place.1,
                    place.2,
                    in_container(all[k].0, ring.container),
                    in_container(all[k].1, ring.container),
                )
            }
        }),
{
    reveal(has_answered);
    reveal(follows);
    let playing = first_free(engine.busy, 0) is Some;
    let end = pass_end(engine, audio, packets, buffer, completed);
    lemma_answered(engine, audio, packets, buffer, completed, playing, 8);
    lemma_all_heard(engine, audio, packets, buffer, completed, playing, carried, heard, 8);
    lemma_runs(audio, Slot::Input12, id);
    let ring = audio.streams[id]->0;
    let after = end.mix.audio.streams[id]->0;
    assert(end.mix.audio.running_stream(Slot::Input12) == Some(after));
    assert(end.mix.audio.slot_wf(Slot::Input12));
    let n = ring.frames + k;
    if ring.buffers.len() > 0 && is_place(after, n, place.0, place.1, place.2) && (joined(
        heard,
        8,
    ).len() - k) * (2 * ring.container) <= ring.buffers.len() * ring.packet_bytes {
        let there = StreamView { frames: n, ..after };
        assert(is_recent(ring, joined(heard, 8).len() - k));
        assert(is_place(there, n, place.0, place.1, place.2));
        law_frames_are_read_from_their_place(there, place.0, place.1, place.2);
        assert(frame_at(after, n) == there.next_frame());
    }
}

/// What a device reports without an error is heard as it is: of each frame the
/// left and the right sample of the first stream.
pub proof fn law_clean_packets_are_heard(
    engine: EngineView,
    packet: IsoPacket,
    buffer: Seq<u8>,
    frames: Seq<Frame>,
    heard: Seq<(int, int)>,
    carried: int,
)
    requires
        packet.status == 0,
        packet.length <= engine.max_packet_bytes,
        packet.offset + packet.length <= buffer.len(),
        buffer.subrange(packet.offset as int, packet.offset + packet.length) == capture_packet(
            frames,
        ),
        forall|n: int, c: int|
            0 <= n < frames.len() && 0 <= c < 4 ==> is_sample24(#[trigger] frames[n]@[c] as int),
        heard.len() == frames.len(),
        forall|n: int|
            0 <= n < frames.len() ==> #[trigger] heard[n] == (
                frames[n]@[0] as int,
                frames[n]@[1] as int,
            ),
    ensures
        is_heard(engine, packet, buffer, carried, carried, heard),
{
    let bytes = capture_packet(frames);
    assert(bytes.len() == 16 * frames.len());
    assert(checks_hold(bytes));
    assert forall|n: int| 0 <= n < heard.len() implies #[trigger] heard[n] == (
        sample_of(bytes[16 * n + 10], bytes[16 * n + 12], bytes[16 * n + 14]),
        sample_of(bytes[16 * n + 2], bytes[16 * n + 4], bytes[16 * n + 6]),
    ) by {
        assert((16 * n + 10) / 8 == 2 * n + 1 && (16 * n + 10) % 8 == 2);
        assert((16 * n + 12) / 8 == 2 * n + 1 && (16 * n + 12) % 8 == 4);
        assert((16 * n + 14) / 8 == 2 * n + 1 && (16 * n + 14) % 8 == 6);
        assert((16 * n + 2) / 8 == 2 * n && (16 * n + 2) % 8 == 2);
        assert((16 * n + 4) / 8 == 2 * n && (16 * n + 4) % 8 == 4);
        assert((16 * n + 6) / 8 == 2 * n && (16 * n + 6) % 8 == 6);
        let left = frames[n]@[0] as int;
        let right = frames[n]@[1] as int;
        assert(is_sample24(left) && is_sample24(right));
        law_low_bytes_make_a_sample(left);
        law_low_bytes_make_a_sample(right);
    }
}

/// The samples of a ring fit in 24 bits.
proof fn lemma_ring_sample(stream: StreamView)
    requires
        stream.wf(),
    ensures
        is_sample24(stream.next_frame().0),
        is_sample24(stream.next_frame().1),
{
    if stream.buffers.len() > 0 {
        let place = law_every_frame_has_a_place(stream, stream.frames);
        law_frames_are_read_from_their_place(stream, place.0, place.1, place.2);
    }
}

/// The sample of `channel` of output pair `pair` in frame `k` of the playback
/// data `data`, whose last samples end in `left_over`: its bytes begin in the
/// block of its channel and go on in the next block.
pub open spec fn sent_sample(
    data: Seq<u8>,
    left_over: Seq<Seq<u8>>,
    k: int,
    pair: int,
    channel: int,
) -> int {
    let start = 16 * k + 8 * channel;
    if 16 * k + 16 == data.len() && channel == 1 {
        sample_of(data[start + 6 + pair], left_over[pair][0], left_over[pair][1])
    } else {
        sample_of(data[start + 6 + pair], data[start + 8 + pair], data[start + 10 + pair])
    }
}

/// What the slots play goes out in 24 bits.
proof fn lemma_outgoing(
    audio: AudioView,
    count: nat,
    slot: Slot,
    k: int,
    pair: int,
    channel: int,
)
    requires
        audio.wf(),
        0 <= k < count,
        (pair == 0 && slot == Slot::Output12) || (pair == 1 && slot == Slot::Output34),
        0 <= channel < 2,
    ensures
        outgoing(audio, count)[k]@[2 * pair + channel] == (if channel == 0 {
            pair_at(audio, slot, k).0
        } else {
            pair_at(audio, slot, k).1
        }),
        is_sample24(outgoing(audio, count)[k]@[2 * pair + channel] as int),
{
    assert(audio.slot_wf(slot));
    match audio.running_stream(slot) {
        Some(ring) => {
            lemma_ring_sample(StreamView { frames: ring.frames + k, ..ring });
        },
        None => {},
    }
    let samples = pair_at(audio, slot, k);
    assert(is_sample24(samples.0) && is_sample24(samples.1));
    if pair == 0 {
        assert(outgoing(audio, count)[k]@[0] == samples.0);
        assert(outgoing(audio, count)[k]@[1] == samples.1);
    } else {
        assert(outgoing(audio, count)[k]@[2] == samples.0);
        assert(outgoing(audio, count)[k]@[3] == samples.1);
    }
}

/// A packet has sixteen bytes for each of its frames.
proof fn lemma_packet_length(tail: Seq<Seq<u8>>, frames: Seq<Frame>)
    ensures
        playback_packet(tail, frames).len() == 16 * frames.len(),
{
}

/// A sample is found in the packet that carries it.
proof fn lemma_packet_sample(
    tail: Seq<Seq<u8>>,
    frames: Seq<Frame>,
    k: int,
    pair: int,
    channel: int,
)
    requires
        is_tail(tail),
        0 <= k < frames.len(),
        0 <= pair < 2,
        0 <= channel < 2,
        is_sample24(frames[k]@[2 * pair + channel] as int),
    ensures
        playback_packet(tail, frames).len() == 16 * frames.len(),
        playback_packet(tail, frames)[16 * k + 8 * channel + 4 + pair] == 2 * pair + 1 - channel,
        sent_sample(playback_packet(tail, frames), tail_after(tail, frames), k, pair, channel)
            == frames[k]@[2 * pair + channel],
{
    law_playback_layout(tail, frames, k, pair, channel);
}

/// What the slots play is found in the packet that carries it.
proof fn lemma_slot_sample(
    audio: AudioView,
    tail: Seq<Seq<u8>>,
    moved: nat,
    slot: Slot,
    k: int,
    pair: int,
    channel: int,
)
    requires
        audio.wf(),
        is_tail(tail),
        0 <= k < moved,
        (pair == 0 && slot == Slot::Output12) || (pair == 1 && slot == Slot::Output34),
        0 <= channel < 2,
    ensures
        is_sent_at(
            playback_packet(tail, outgoing(audio, moved)),
            tail_after(tail, outgoing(audio, moved)),
            k,
            pair,
            channel,
            if channel == 0 {
                pair_at(audio, slot, k).0
            } else {
                pair_at(audio, slot, k).1
            },
        ),
{
    reveal(is_sent_at);
    lemma_outgoing(audio, moved, slot, k, pair, channel);
    lemma_packet_sample(tail, outgoing(audio, moved), k, pair, channel);
}

/// Whether playback data has `sample` in its place, behind its check byte.
#[verifier::opaque]
spec fn is_sent_at(
    data: Seq<u8>,
    left_over: Seq<Seq<u8>>,
    k: int,
    pair: int,
    channel: int,
    sample: int,
) -> bool {
    &&& data.len() % 16 == 0
    &&& data[16 * k + 8 * channel + 4 + pair] == 2 * pair + 1 - channel
    &&& sent_sample(data, left_over, k, pair, channel) == sample
}

/// The playback data is that of the next frames of the rings.
proof fn lemma_end(
    engine: EngineView,
    audio: AudioView,
    packets: Seq<IsoPacket>,
    buffer: Seq<u8>,
    completed: u64,
) -> (moved: nat)
    requires
        audio.wf(),
        is_tail(engine.tail),
        first_free(engine.busy, 0) is Some,
    ensures
        ({
            let end = pass_end(engine, audio, packets, buffer, completed);
            &&& end.data == playback_packet(engine.tail, outgoing(audio, moved))
            &&& end.tail == tail_after(engine.tail, outgoing(audio, moved))
            &&& engine.after_answer(end).tail == end.tail
        }),
{
    reveal(has_answered);
    lemma_answered(engine, audio, packets, buffer, completed, true, 8);
    let start = pass_start(engine, audio);
    all_delivered(start, engine, packets, buffer, completed, true, 8).len()
}

/// The playback data holds what the slots play.
proof fn lemma_sent(
    engine: EngineView,
    audio: AudioView,
    packets: Seq<IsoPacket>,
    buffer: Seq<u8>,
    completed: u64,
    slot: Slot,
    k: int,
    pair: int,
    channel: int,
)
    requires
        audio.wf(),
        is_tail(engine.tail),
        first_free(engine.busy, 0) is Some,
        0 <= k,
        16 * k < pass_end(engine, audio, packets, buffer, completed).data.len(),
        (pair == 0 && slot == Slot::Output12) || (pair == 1 && slot == Slot::Output34),
        0 <= channel < 2,
    ensures
        ({
            let end = pass_end(engine, audio, packets, buffer, completed);
            is_sent_at(
                end.data,
                engine.after_answer(end).tail,
                k,
                pair,
                channel,
                if channel == 0 {
                    pair_at(audio, slot, k).0
                } else {
                    pair_at(audio, slot, k).1
                },
            )
        }),
{
    let moved = lemma_end(engine, audio, packets, buffer, completed);
    lemma_packet_length(engine.tail, outgoing(audio, moved));
    lemma_slot_sample(audio, engine.tail, moved, slot, k, pair, channel);
}

/// In the playback data that answers a capture transfer, the sample of
/// `channel` of an output pair in frame `k` is that of the frame which the
/// stream that runs in the pair's slot had in its ring's memory as its next
/// frame but `k` before the answer. A stream without packets plays silence.
pub proof fn law_answers_play_the_rings(
    engine: EngineView,
    audio: AudioView,
    packets: Seq<IsoPacket>,
    buffer: Seq<u8>,
    completed: u64,
    free: int,
    slot: Slot,
    id: int,
    place: (int, int, int),
    k: int,
    pair: int,
    channel: int,
)
    requires
        audio.wf(),
        is_tail(engine.tail),
        0 <= free < engine.busy.len(),
        !engine.busy[free],
        0 <= k,
        16 * k < pass_end(engine, audio, packets, buffer, completed).data.len(),
        (pair == 0 && slot == Slot::Output12) || (pair == 1 && slot == Slot::Output34),
        0 <= channel < 2,
        runs(audio, slot, id),
    ensures
        ({
            let end = pass_end(engine, audio, packets, buffer, completed);
            let sample = sent_sample(
                end.data,
                engine.after_answer(end).tail,
                k,
                pair,
                channel,
            );
            let ring = audio.streams[id]->0;
            &&& ring.buffers.len() == 0 ==> sample == 0
            &&& is_place(ring, ring.frames + k, place.0, place.1, place.2) ==> sample
                == ring_sample(
                ring.buffers[place.1],
                place_start(ring, place.1, place.2) + channel * ring.container,
                ring.container,
            )
        }),
{
    reveal(is_sent_at);
    lemma_first_free(engine.busy, 0);
    lemma_sent(engine, audio, packets, buffer, completed, slot, k, pair, channel);
    lemma_runs(audio, slot, id);
    let ring = audio.streams[id]->0;
    if is_place(ring, ring.frames + k, place.0, place.1, place.2) {
        let there = StreamView { frames: ring.frames + k, ..ring };
        assert(is_place(there, there.frames, place.0, place.1, place.2));
        law_frames_are_read_from_their_place(there, place.0, place.1, place.2);
    }
}

/// In the playback data that answers a capture transfer, an output pair in
/// whose slot no stream runs is silent. Whatever runs, each sample stands behind
/// the check byte of its pair and channel.
pub proof fn law_answers_are_silent_where_nothing_runs(
    engine: EngineView,
    audio: AudioView,
    packets: Seq<IsoPacket>,
    buffer: Seq<u8>,
    completed: u64,
    free: int,
    slot: Slot,
    k: int,
    pair: int,
    channel: int,
)
    requires
        audio.wf(),
        is_tail(engine.tail),
        0 <= free < engine.busy.len(),
        !engine.busy[free],
        0 <= k,
        16 * k < pass_end(engine, audio, packets, buffer, completed).data.len(),
        (pair == 0 && slot == Slot::Output12) || (pair == 1 && slot == Slot::Output34),
        0 <= channel < 2,
    ensures
        ({
            let end = pass_end(engine, audio, packets, buffer, completed);
            let left_over = engine.after_answer(end).tail;
            &&& end.data.len() % 16 == 0
            &&& end.data[16 * k + 8 * channel + 4 + pair] == 2 * pair + 1 - channel
            &&& (forall|id: int| !runs(audio, slot, id)) ==> sent_sample(
                end.data,
                left_over,
                k,
                pair,
                channel,
            ) == 0
        }),
{
    reveal(is_sent_at);
    lemma_first_free(engine.busy, 0);
    lemma_sent(engine, audio, packets, buffer, completed, slot, k, pair, channel);
    if forall|id: int| !runs(audio, slot, id) {
        lemma_runs_not(audio, slot);
    }
}

/// A stream that plays keeps its ring and moves on.
proof fn lemma_playing_stream(
    before: AudioView,
    now: AudioView,
    moved: int,
    heard: Seq<(int, int)>,
    slot: Slot,
    id: int,
)
    requires
        before.wf(),
        follows(before, now, moved, heard),
        runs(before, slot, id),
        slot != Slot::Input12,
    ensures
        now.streams[id] is Some,
        (now.streams[id]->0).buffers == (before.streams[id]->0).buffers,
        (before.streams[id]->0).buffers.len() > 0 ==> (now.streams[id]->0).frames == (
        before.streams[id]->0).frames + moved,
{
    reveal(follows);
    lemma_runs(before, slot, id);
    assert(now.running_stream(slot) == now.streams[id]);
}

/// What does not run stays.
proof fn lemma_idle_stream(
    before: AudioView,
    now: AudioView,
    moved: int,
    heard: Seq<(int, int)>,
    id: int,
)
    requires
        follows(before, now, moved, heard),
        0 <= id < before.streams.len(),
    ensures
        now.running == before.running,
        now.streams.len() == before.streams.len(),
        !before.running.contains(Some(id)) ==> now.streams[id] == before.streams[id],
{
    reveal(follows);
}

/// A playing stream's ring stays as it is while a transfer is answered, and the
/// stream moves on by as many frames as the playback data holds; streams that
/// do not run stay as they are.
pub proof fn law_answers_move_what_runs(
    engine: EngineView,
    audio: AudioView,
    packets: Seq<IsoPacket>,
    buffer: Seq<u8>,
    completed: u64,
    id: int,
)
    requires
        audio.wf(),
        is_tail(engine.tail),
        0 <= id < audio.streams.len(),
    ensures
        ({
            let end = pass_end(engine, audio, packets, buffer, completed);
            let after = end.mix.audio;
            &&& after.running == audio.running
            &&& after.streams.len() == audio.streams.len()
            &&& !audio.running.contains(Some(id)) ==> after.streams[id] == audio.streams[id]
            &&& runs(audio, Slot::Output12, id) || runs(audio, Slot::Output34, id) ==> {
                let ring = audio.streams[id]->0;
                &&& after.streams[id] matches Some(moved)
                &&& (after.streams[id]->0).buffers == ring.buffers
                &&& ring.buffers.len() > 0 ==> 16 * ((after.streams[id]->0).frames - ring.frames)
                    == end.data.len()
            }
        }),
{
    let playing = first_free(engine.busy, 0) is Some;
    lemma_answered(engine, audio, packets, buffer, completed, playing, 8);
    let start = pass_start(engine, audio);
    let heard = all_delivered(start, engine, packets, buffer, completed, playing, 8);
    let moved = if playing {
        heard.len()
    } else {
        0
    };
    let end = pass_end(engine, audio, packets, buffer, completed);
    assert(follows(audio, end.mix.audio, moved as int, heard) && end.data == playback_packet(
        engine.tail,
        outgoing(audio, moved),
    )) by {
        reveal(has_answered);
    }
    lemma_packet_length(engine.tail, outgoing(audio, moved));
    lemma_idle_stream(audio, end.mix.audio, moved as int, heard, id);
    if runs(audio, Slot::Output12, id) {
        lemma_playing_stream(audio, end.mix.audio, moved as int, heard, Slot::Output12, id);
    }
    if runs(audio, Slot::Output34, id) {
        lemma_playing_stream(audio, end.mix.audio, moved as int, heard, Slot::Output34, id);
    }
}

/// Each packet of a capture transfer is answered by a playback packet of as
/// many frames as it stands for, the packets lie in the data one after the
/// other, and nothing is played where no transfer is free.
pub proof fn law_answers_have_the_frames_heard(
    engine: EngineView,
    audio: AudioView,
    packets: Seq<IsoPacket>,
    buffer: Seq<u8>,
    completed: u64,
    carried: Seq<int>,
    heard: Seq<Seq<(int, int)>>,
    i: int,
)
    requires
        engine.wf(),
        audio.wf(),
        is_tail(engine.tail),
        are_heard(engine, packets, buffer, carried, heard),
        0 <= i < 8,
    ensures
        ({
            let end = pass_end(engine, audio, packets, buffer, completed);
            let free = exists|t: int| 0 <= t < engine.busy.len() && !(#[trigger] engine.busy[t]);
            &&& free ==> end.packets.len() == 8
            &&& free ==> end.packets[i].offset == 16 * joined(heard, i).len()
            &&& free ==> end.packets[i].length == 16 * heard[i].len()
            &&& free ==> end.data.len() == 16 * joined(heard, 8).len()
            &&& !free ==> end.data.len() == 0
            &&& !free ==> engine.after_answer(end).tail == engine.tail
            &&& joined(heard, 8).len() <= 256
        }),
{
    reveal(has_answered);
    let playing = first_free(engine.busy, 0) is Some;
    lemma_first_free(engine.busy, 0);
    lemma_answered(engine, audio, packets, buffer, completed, playing, 8);
    lemma_all_heard(engine, audio, packets, buffer, completed, playing, carried, heard, 8);
    if !playing {
        law_empty_packets_carry_over(engine.tail);
        assert(outgoing(audio, 0) =~= seq![]);
    }
}

/// How many check bytes of the first `frames` frames of a packet are not those
/// due in their places.
pub open spec fn wrong_checks(bytes: Seq<u8>, frames: int) -> int
    decreases frames,
{
    if frames <= 0 {
        0
    } else {
        let at = 16 * (frames - 1);
        wrong_checks(bytes, frames - 1) + (if bytes[at] % 64 == 1 {
            0int
        } else {
            1
        }) + (if bytes[at + 1] % 64 == 3 {
            0int
        } else {
            1
        }) + (if bytes[at + 8] % 64 == 0 {
            0int
        } else {
            1
        }) + (if bytes[at + 9] % 64 == 2 {
            0int
        } else {
            1
        })
    }
}

/// What the packets of a capture transfer add up to.
pub struct Tally {
    /// Packets that did not come through.
    pub invalid: int,
    /// Frames in those that did.
    pub frames: int,
    pub check_errors: int,
    /// Packets in which the device reports that it rejected what was played.
    pub rejected: int,
}

/// What the first `count` packets of a capture transfer add up to.
pub open spec fn tally(
    engine: EngineView,
    packets: Seq<IsoPacket>,
    buffer: Seq<u8>,
    count: int,
) -> Tally
    decreases count,
{
    if count <= 0 {
        Tally { invalid: 0, frames: 0, check_errors: 0, rejected: 0 }
    } else {
        let before = tally(engine, packets, buffer, count - 1);
        let packet = packets[count - 1];
        if packet.status != 0 || packet.length > engine.max_packet_bytes || packet.length % 16
            != 0 {
            Tally { invalid: before.invalid + 1, ..before }
        } else {
            let bytes = buffer.subrange(packet.offset as int, packet.offset + packet.length);
            Tally {
                frames: before.frames + bytes.len() / 16,
                check_errors: before.check_errors + wrong_checks(bytes, bytes.len() as int / 16),
                rejected: before.rejected + (if exists|i: int|
                    0 <= i < bytes.len() && i % 8 < 2 && #[trigger] bytes[i] >= 128 {
                    1int
                } else {
                    0
                }),
                ..before
            }
        }
    }
}

/// The check errors of a packet are its wrong check bytes.
proof fn lemma_wrong_checks(bytes: Seq<u8>, frames: nat)
    ensures
        check_error_count(bytes, 2 * frames) == wrong_checks(bytes, frames as int),
        wrong_checks(bytes, frames as int) <= 4 * frames,
    decreases frames,
{
    if frames > 0 {
        lemma_wrong_checks(bytes, (frames - 1) as nat);
        law_check_bytes_are_counted(bytes, frames - 1);
    } else {
        law_check_bytes_are_counted(bytes, 0);
    }
}

/// A rejection is a top bit among the check bytes.
proof fn lemma_rejection(bytes: Seq<u8>)
    requires
        bytes.len() % 16 == 0,
    ensures
        rejection_reported(bytes, (bytes.len() / 16 * 2) as int) <==> exists|i: int|
            0 <= i < bytes.len() && i % 8 < 2 && #[trigger] bytes[i] >= 128,
{
    let blocks = (bytes.len() / 16 * 2) as int;
    if rejection_reported(bytes, blocks) {
        let (block, stream) = choose|block: int, stream: int|
            0 <= block < blocks && 0 <= stream < 2 && #[trigger] capture_check(bytes, block, stream)
                >= 128;
        assert(bytes[8 * block + stream] >= 128);
    }
    if exists|i: int| 0 <= i < bytes.len() && i % 8 < 2 && #[trigger] bytes[i] >= 128 {
        let i = choose|i: int| 0 <= i < bytes.len() && i % 8 < 2 && #[trigger] bytes[i] >= 128;
        assert(capture_check(bytes, i / 8, i % 8) >= 128);
    }
}

/// Whether a counter of 32 bits that stood at `before` stands at `now` after
/// `count` more.
pub open spec fn counted(before: u32, count: int, now: u32) -> bool {
    (before + count - now) % 4294967296 == 0
}

/// Whether the counters `after` are those `before` and what packets add up to.
pub open spec fn tallied(before: Stats, sum: Tally, after: Stats) -> bool {
    &&& counted(before.invalid_packets, sum.invalid, after.invalid_packets)
    &&& counted(before.frames, sum.frames, after.frames)
    &&& counted(before.check_errors, sum.check_errors, after.check_errors)
    &&& counted(before.rejected_packets, sum.rejected, after.rejected_packets)
    &&& after.capture_transfers == before.capture_transfers
    &&& after.capture_failures == before.capture_failures
    &&& after.playback_transfers == before.playback_transfers
    &&& after.playback_failures == before.playback_failures
    &&& after.playback_overruns == before.playback_overruns
}

/// Counting goes on where it stood.
proof fn lemma_tallied_twice(a: Stats, first: Tally, b: Stats, second: Tally, c: Stats)
    requires
        tallied(a, first, b),
        tallied(b, second, c),
    ensures
        tallied(
            a,
            Tally {
                invalid: first.invalid + second.invalid,
                frames: first.frames + second.frames,
                check_errors: first.check_errors + second.check_errors,
                rejected: first.rejected + second.rejected,
            },
            c,
        ),
{
}

/// What a packet adds to the counters.
proof fn lemma_counted_packet(stats: Stats, engine: EngineView, packet: IsoPacket, buffer: Seq<u8>)
    requires
        engine.wf(),
        is_valid(packet, engine.max_packet_bytes) ==> packet.offset + packet.length
            <= buffer.len(),
    ensures
        ({
            let after = count_packet(stats, packet, engine.max_packet_bytes, buffer);
            let one = tally(engine, seq![packet], buffer, 1);
            tallied(stats, one, after)
        }),
{
    reveal_with_fuel(tally, 2);
    let data = packet_data(packet, engine.max_packet_bytes, buffer);
    let frames = data.len() / 16;
    lemma_wrong_checks(data, frames);
    lemma_rejection(data);
    assert(2 * frames == frames * 2);
    if !is_valid(packet, engine.max_packet_bytes) {
        reveal_with_fuel(wrong_checks, 1);
        assert(data.len() == 0);
        assert(!rejection_reported(data, 0));
    }
}

/// A capture transfer is counted packet by packet: those that did not come
/// through, and of the others the frames, the wrong check bytes and those that
/// report a rejection. An answer for which no playback transfer is free counts
/// as an overrun. Nothing else is counted with an answer.
pub proof fn law_answers_count_their_packets(
    engine: EngineView,
    audio: AudioView,
    packets: Seq<IsoPacket>,
    buffer: Seq<u8>,
    completed: u64,
)
    requires
        engine.wf(),
        packets.len() == 8,
        forall|i: int|
            0 <= i < 8 && #[trigger] packets[i].status == 0 && packets[i].length
                <= engine.max_packet_bytes && packets[i].length % 16 == 0 ==> packets[i].offset
                + packets[i].length <= buffer.len(),
    ensures
        ({
            let before = engine.stats;
            let end = pass_end(engine, audio, packets, buffer, completed);
            let after = engine.after_answer(end).stats;
            let sum = tally(engine, packets, buffer, 8);
            &&& counted(before.invalid_packets, sum.invalid, after.invalid_packets)
            &&& counted(before.frames, sum.frames, after.frames)
            &&& counted(before.check_errors, sum.check_errors, after.check_errors)
            &&& counted(before.rejected_packets, sum.rejected, after.rejected_packets)
            &&& after.capture_transfers == before.capture_transfers
            &&& after.capture_failures == before.capture_failures
            &&& after.playback_transfers == before.playback_transfers
            &&& after.playback_failures == before.playback_failures
            &&& (exists|t: int| 0 <= t < engine.busy.len() && !(#[trigger] engine.busy[t]))
                ==> after.playback_overruns == before.playback_overruns
            &&& (forall|t: int| 0 <= t < engine.busy.len() ==> #[trigger] engine.busy[t])
                ==> counted(before.playback_overruns, 1, after.playback_overruns)
        }),
{
    let playing = first_free(engine.busy, 0) is Some;
    lemma_first_free(engine.busy, 0);
    lemma_counted(engine, audio, packets, buffer, completed, playing, 8);
}

/// The counters after some packets.
proof fn lemma_counted(
    engine: EngineView,
    audio: AudioView,
    packets: Seq<IsoPacket>,
    buffer: Seq<u8>,
    completed: u64,
    playing: bool,
    count: nat,
)
    requires
        engine.wf(),
        packets.len() == 8,
        count <= 8,
        forall|i: int|
            0 <= i < 8 && #[trigger] packets[i].status == 0 && packets[i].length
                <= engine.max_packet_bytes && packets[i].length % 16 == 0 ==> packets[i].offset
                + packets[i].length <= buffer.len(),
    ensures
        ({
            let start = pass_start(engine, audio);
            let before = start.stats;
            let after = answered(start, engine, packets, buffer, completed, playing, count).stats;
            let sum = tally(engine, packets, buffer, count as int);
            tallied(before, sum, after)
        }),
    decreases count,
{
    if count > 0 {
        let less = (count - 1) as nat;
        let last = count - 1;
        lemma_counted(engine, audio, packets, buffer, completed, playing, less);
        let start = pass_start(engine, audio);
        let pass = answered(start, engine, packets, buffer, completed, playing, less);
        let after = answered(start, engine, packets, buffer, completed, playing, count);
        assert(packets[last].status == 0 || packets[last].status != 0);
        lemma_counted_packet(pass.stats, engine, packets[last], buffer);
        assert(after.stats == count_packet(
            pass.stats,
            packets[last],
            engine.max_packet_bytes,
            buffer,
        ));
        lemma_tally(engine, packets, buffer, count as int);
        lemma_tallied_twice(
            start.stats,
            tally(engine, packets, buffer, less as int),
            pass.stats,
            tally(engine, seq![packets[last]], buffer, 1),
            after.stats,
        );
    }
}

/// What packets add up to grows with each packet by what that packet adds.
proof fn lemma_tally(
    engine: EngineView,
    packets: Seq<IsoPacket>,
    buffer: Seq<u8>,
    count: int,
)
    requires
        0 < count <= packets.len(),
    ensures
        ({
            let before = tally(engine, packets, buffer, count - 1);
            let one = tally(engine, seq![packets[count - 1]], buffer, 1);
            tally(engine, packets, buffer, count) == (Tally {
                invalid: before.invalid + one.invalid,
                frames: before.frames + one.frames,
                check_errors: before.check_errors + one.check_errors,
                rejected: before.rejected + one.rejected,
            })
        }),
{
    reveal_with_fuel(tally, 2);
    assert(seq![packets[count - 1]][0] == packets[count - 1]);
}

/// The packets of a capture transfer end one microframe after another, the last
/// one with the transfer.
pub proof fn law_packets_end_a_microframe_apart(engine: EngineView, completed: u64, i: int)
    requires
        engine.wf(),
        completed >= 7 * engine.qpc_per_microframe,
        0 <= i < 7,
    ensures
        packet_time(engine, completed, 7) == completed,
        packet_time(engine, completed, i + 1) == packet_time(engine, completed, i)
            + engine.qpc_per_microframe,
{
    let step = engine.qpc_per_microframe;
    assert((7 - 7) * step == 0) by (nonlinear_arith);
    assert((7 - (i + 1)) * step == (7 - i) * step - step) by (nonlinear_arith);
    assert(0 <= (7 - i) * step <= 7 * step) by (nonlinear_arith)
        requires
            0 <= i < 7,
            step >= 0,
    ;
    assert(0 <= (7 - (i + 1)) * step) by (nonlinear_arith)
        requires
            0 <= i < 7,
            step >= 0,
    ;
}

/// An answer with something to play takes the first free playback transfer and
/// no other; without a free one, or with nothing to play, it takes none.
pub proof fn law_answers_take_the_first_free_transfer(
    engine: EngineView,
    audio: AudioView,
    packets: Seq<IsoPacket>,
    buffer: Seq<u8>,
    completed: u64,
    t: int,
)
    requires
        0 <= t < engine.busy.len(),
    ensures
        ({
            let end = pass_end(engine, audio, packets, buffer, completed);
            let after = engine.after_answer(end).busy;
            let taken = end.data.len() > 0 && !engine.busy[t] && forall|u: int|
                0 <= u < t ==> #[trigger] engine.busy[u];
            &&& after.len() == engine.busy.len()
            &&& taken ==> is_sent(engine, end) && first_free(engine.busy, 0) == Some(t) && after[t]
            &&& !taken ==> after[t] == engine.busy[t]
            &&& is_sent(engine, end) ==> end.data.len() > 0
            &&& engine.after_answer(end).rate_hz == engine.rate_hz
            &&& engine.after_answer(end).max_packet_bytes == engine.max_packet_bytes
            &&& engine.after_answer(end).qpc_per_microframe == engine.qpc_per_microframe
            &&& engine.after_answer(end).running == engine.running
            &&& engine.after_answer(end).in_flight == engine.in_flight
        }),
{
    lemma_first_free(engine.busy, 0);
    lemma_lowest_free(engine.busy, 0);
}

proof fn lemma_lowest_free(busy: Seq<bool>, from: int)
    requires
        0 <= from,
    ensures
        first_free(busy, from) matches Some(index) ==> forall|u: int|
            from <= u < index ==> #[trigger] busy[u],
    decreases busy.len() - from,
{
    if from < busy.len() && busy[from] {
        lemma_lowest_free(busy, from + 1);
    }
}

/// A packet that the frame of a running stream finishes is reported for the
/// stream's slot, at the time and with the number of the packet whose buffer
/// was moved through; other frames report nothing.
pub proof fn law_finished_packets_are_reported(
    mix: Mix,
    slot: Slot,
    id: int,
    place: (int, int, int),
    left: int,
    right: int,
    qpc: u64,
)
    requires
        mix.audio.wf(),
        runs(mix.audio, slot, id),
        (mix.audio.streams[id]->0).buffers.len() > 0,
        (mix.audio.streams[id]->0).frames < u64::MAX,
        is_place(
            mix.audio.streams[id]->0,
            (mix.audio.streams[id]->0).frames,
            place.0,
            place.1,
            place.2,
        ),
    ensures
        ({
            let ring = mix.audio.streams[id]->0;
            let after = if slot == Slot::Input12 {
                mix.captured(left, right, qpc).completions
            } else {
                mix.rendered_slot(slot, qpc).completions
            };
            if (place.2 + 1) * (2 * ring.container) == ring.packet_bytes {
                &&& after.len() == mix.completions.len() + 1
                &&& after.drop_last() == mix.completions
                &&& after.last().slot == slot
                &&& after.last().completion.packet == place.0 * ring.buffers.len() + place.1
                &&& after.last().completion.qpc == qpc
            } else {
                after == mix.completions
            }
        }),
{
    lemma_runs(mix.audio, slot, id);
    let ring = mix.audio.streams[id]->0;
    assert(mix.audio.slot_wf(slot));
    law_completions_name_their_packet(ring, qpc, place.0, place.1, place.2);
    if let Some(completion) = ring.completion(qpc) {
        let after = mix.completions.push(SlotCompletion { slot, completion });
        assert(after.drop_last() =~= mix.completions);
    }
}

/// Both output pairs play each frame, outputs 1/2 first.
pub proof fn law_pairs_play_together(mix: Mix, qpc: u64)
    requires
        mix.audio.wf(),
    ensures
        mix.rendered(qpc).audio.running_stream(Slot::Output12) == mix.rendered_slot(
            Slot::Output12,
            qpc,
        ).audio.running_stream(Slot::Output12),
        mix.rendered(qpc).audio.running_stream(Slot::Output34) == mix.rendered_slot(
            Slot::Output34,
            qpc,
        ).audio.running_stream(Slot::Output34),
        mix.rendered(qpc).audio.running_stream(Slot::Input12) == mix.audio.running_stream(
            Slot::Input12,
        ),
        mix.rendered(qpc).completions == mix.rendered_slot(Slot::Output12, qpc).rendered_slot(
            Slot::Output34,
            qpc,
        ).completions,
{
    let first = mix.rendered_slot(Slot::Output12, qpc);
    lemma_render_slot(mix, Slot::Output12, qpc);
    lemma_render_slot(mix, Slot::Output34, qpc);
    lemma_render_slot(first, Slot::Output34, qpc);
    assert(first.audio.running_stream(Slot::Output34) == mix.audio.running_stream(Slot::Output34));
    assert(first.audio.running_stream(Slot::Input12) == mix.audio.running_stream(Slot::Input12));
    assert(mix.audio.slot_wf(Slot::Output34));
    assert(first.audio.slot_wf(Slot::Output34));
    assert(mix.rendered(qpc).audio.running_stream(Slot::Output12) == first.audio.running_stream(
        Slot::Output12,
    ));
    assert(mix.rendered(qpc).audio.running_stream(Slot::Input12) == first.audio.running_stream(
        Slot::Input12,
    ));
    match mix.audio.running_stream(Slot::Output34) {
        Some(stream) => {
            lemma_with_running(mix.audio, Slot::Output34, stream.rendered(qpc as int));
            lemma_with_running(first.audio, Slot::Output34, stream.rendered(qpc as int));
        },
        None => {},
    }
}

/// The input stream after some frames at one time.
proof fn lemma_captures_time(
    mix: Mix,
    data: Seq<u8>,
    clean: bool,
    count: nat,
    qpc: u64,
)
    requires
        mix.audio.wf(),
    ensures
        ({
            let after = after_captures(mix, data, clean, count, qpc).audio;
            &&& after.wf()
            &&& mix.audio.running_stream(Slot::Input12) is Some && count > 0 ==> (
            after.running_stream(Slot::Input12) matches Some(stream) && stream.qpc == qpc)
            &&& after.running_stream(Slot::Input12) is Some <==> mix.audio.running_stream(
                Slot::Input12,
            ) is Some
            &&& after.running_stream(Slot::Output12) == mix.audio.running_stream(Slot::Output12)
            &&& after.running_stream(Slot::Output34) == mix.audio.running_stream(Slot::Output34)
        }),
    decreases count,
{
    if count > 0 {
        let less = (count - 1) as nat;
        lemma_captures_time(mix, data, clean, less, qpc);
        let before = after_captures(mix, data, clean, less, qpc);
        let frame = input_frame(data, clean, count - 1);
        assert(before.audio.slot_wf(Slot::Input12));
        match before.audio.running_stream(Slot::Input12) {
            Some(stream) => {
                lemma_stored_shape(stream, frame.0, frame.1);
                lemma_with_running(
                    before.audio,
                    Slot::Input12,
                    stream.captured(frame.0, frame.1, qpc as int),
                );
            },
            None => {},
        }
    }
}

/// The output streams after some frames at one time.
proof fn lemma_renders_time(mix: Mix, slot: Slot, count: nat, qpc: u64)
    requires
        mix.audio.wf(),
        slot != Slot::Input12,
    ensures
        ({
            let after = after_renders(mix, count, qpc).audio;
            &&& after.wf()
            &&& mix.audio.running_stream(slot) matches Some(stream) ==> {
                &&& after.running_stream(slot) is Some
                &&& (after.running_stream(slot)->0).buffers == stream.buffers
                &&& count > 0 && stream.buffers.len() > 0 ==> (after.running_stream(slot)->0).qpc
                    == qpc
            }
            &&& after.running_stream(Slot::Input12) == mix.audio.running_stream(Slot::Input12)
        }),
    decreases count,
{
    if count > 0 {
        let less = (count - 1) as nat;
        lemma_renders_time(mix, slot, less, qpc);
        let before = after_renders(mix, less, qpc);
        law_pairs_play_together(before, qpc);
        lemma_render_slot(before, Slot::Output12, qpc);
        lemma_render_slot(before.rendered_slot(Slot::Output12, qpc), Slot::Output34, qpc);
        assert(before.audio.slot_wf(slot));
        if let Some(stream) = before.audio.running_stream(slot) {
            lemma_with_running(before.audio, slot, stream.rendered(qpc as int));
        }
    }
}

/// The frames of packet `i` of a transfer move at the time at which that packet
/// ended: the last packet ended with the transfer, and each other one a
/// microframe before the next. What a packet stands for counts from the packets
/// before it.
pub proof fn law_packets_are_stamped_with_their_time(
    engine: EngineView,
    audio: AudioView,
    packets: Seq<IsoPacket>,
    buffer: Seq<u8>,
    completed: u64,
    playing: bool,
    i: nat,
    qpc: u64,
    heard: Seq<(int, int)>,
    after: int,
)
    requires
        engine.wf(),
        audio.wf(),
        is_tail(engine.tail),
        i < 8,
        qpc == completed - (7 - i) * engine.qpc_per_microframe,
        0 <= answered(
            pass_start(engine, audio),
            engine,
            packets,
            buffer,
            completed,
            playing,
            i,
        ).remainder < 8000,
        is_heard(
            engine,
            packets[i as int],
            buffer,
            answered(
                pass_start(engine, audio),
                engine,
                packets,
                buffer,
                completed,
                playing,
                i,
            ).remainder,
            after,
            heard,
        ),
        heard.len() > 0,
    ensures
        ({
            let start = pass_start(engine, audio);
            let before = answered(start, engine, packets, buffer, completed, playing, i).mix.audio;
            let now = answered(
                start,
                engine,
                packets,
                buffer,
                completed,
                playing,
                i + 1,
            ).mix.audio;
            &&& before.running_stream(Slot::Input12) is Some ==> (now.running_stream(
                Slot::Input12,
            ) matches Some(stream) && stream.qpc == qpc)
            &&& playing ==> (before.running_stream(Slot::Output12) matches Some(stream)
                ==> stream.buffers.len() > 0 ==> (now.running_stream(
                Slot::Output12,
            ) matches Some(moved) && moved.qpc == qpc))
            &&& playing ==> (before.running_stream(Slot::Output34) matches Some(stream)
                ==> stream.buffers.len() > 0 ==> (now.running_stream(
                Slot::Output34,
            ) matches Some(moved) && moved.qpc == qpc))
        }),
{
    let start = pass_start(engine, audio);
    let pass = answered(start, engine, packets, buffer, completed, playing, i);
    let max = engine.max_packet_bytes;
    let packet = packets[i as int];
    let data = packet_data(packet, max, buffer);
    let clean = is_clean(packet, max, buffer);
    let count = frame_count(packet, max, pass.remainder, engine.rate_hz) as nat;
    lemma_heard(engine, packet, buffer, pass.remainder, after, heard);
    assert(packet_time(engine, completed, i as int) == qpc);
    assert(pass.mix.audio.wf()) by {
        lemma_answered(engine, audio, packets, buffer, completed, playing, i);
        reveal(has_answered);
        reveal(follows);
    }
    lemma_captures_time(pass.mix, data, clean, count, qpc);
    let mix = after_captures(pass.mix, data, clean, count, qpc);
    if playing {
        lemma_renders_time(mix, Slot::Output12, count, qpc);
        lemma_renders_time(mix, Slot::Output34, count, qpc);
    }
}

} // verus!
