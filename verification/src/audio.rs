//! Ties the streams to the USB engine. The device has one clock, so the first
//! stream fixes the sample rate for all others until every stream is gone, and
//! the engine runs while any stream is prepared and the device is powered.

use vstd::prelude::*;

use crate::mode2::Frame;
use crate::proto::{DeviceSpec, SampleRate};
use crate::rt::{fits_packets, lemma_stored_shape, Completion, RtPacket, RtStream, Slot, StreamView};
use crate::status::{NtStatus, STATUS_DEVICE_NOT_READY, STATUS_NOT_SUPPORTED};

verus! {

/// A packet that a stream finished, to be reported to the audio engine.
#[derive(Clone, Copy, Debug, PartialEq, Eq, Structural)]
pub struct SlotCompletion {
    pub slot: Slot,
    pub completion: Completion,
}

/// How to start the USB engine.
#[derive(Clone, Copy, Debug, PartialEq, Eq, Structural)]
pub struct EngineStart {
    pub rate: SampleRate,
    pub max_packet_bytes: u16,
}

/// The streams of the device, by the number they were given when added.
#[derive(Debug)]
pub struct Audio {
    streams: Vec<Option<RtStream>>,
    running: [Option<usize>; 3],
    claimed: u32,
    rate: Option<SampleRate>,
    spec: Option<DeviceSpec>,
    prepared: u32,
    engine: bool,
}

/// The audio state as a value.
#[verifier::ext_equal]
pub struct AudioView {
    /// The streams; `None` where one is gone.
    pub streams: Seq<Option<StreamView>>,
    /// The stream that runs in each slot.
    pub running: Seq<Option<int>>,
    /// How many times the clock is reserved.
    pub claimed: int,
    pub rate: Option<SampleRate>,
    /// The device, once it is attached.
    pub spec: Option<DeviceSpec>,
    /// How many streams are prepared.
    pub prepared: int,
    /// Whether the USB engine runs.
    pub engine: bool,
}

/// How many of the streams are not gone.
pub open spec fn live(streams: Seq<Option<StreamView>>) -> nat
    decreases streams.len(),
{
    if streams.len() == 0 {
        0
    } else {
        live(streams.drop_last()) + (if streams.last() is Some {
            1nat
        } else {
            0
        })
    }
}

/// Replacing one stream changes the number of live ones by that stream alone.
proof fn lemma_live_update(streams: Seq<Option<StreamView>>, index: int, new: Option<StreamView>)
    requires
        0 <= index < streams.len(),
    ensures
        live(streams.update(index, new)) == live(streams) - (if streams[index] is Some {
            1int
        } else {
            0
        }) + (if new is Some {
            1int
        } else {
            0
        }),
    decreases streams.len(),
{
    let after = streams.update(index, new);
    if index == streams.len() - 1 {
        assert(after.drop_last() =~= streams.drop_last());
    } else {
        lemma_live_update(streams.drop_last(), index, new);
        assert(after.drop_last() =~= streams.drop_last().update(index, new));
    }
}

proof fn lemma_live_push(streams: Seq<Option<StreamView>>, new: Option<StreamView>)
    ensures
        live(streams.push(new)) == live(streams) + (if new is Some {
            1int
        } else {
            0
        }),
{
    assert(streams.push(new).drop_last() =~= streams);
}

/// The first place from `from` on whose stream is gone.
pub open spec fn first_vacant(streams: Seq<Option<StreamView>>, from: int) -> Option<int>
    decreases streams.len() - from,
{
    if from < 0 || from >= streams.len() {
        None
    } else if streams[from] is None {
        Some(from)
    } else {
        first_vacant(streams, from + 1)
    }
}

/// A vacant place is one, and where there is none every stream counts.
proof fn lemma_first_vacant(streams: Seq<Option<StreamView>>, from: int)
    requires
        0 <= from <= streams.len(),
    ensures
        match first_vacant(streams, from) {
            Some(place) => from <= place < streams.len() && streams[place] is None,
            None => forall|i: int| from <= i < streams.len() ==> #[trigger] streams[i] is Some,
        },
    decreases streams.len() - from,
{
    if from < streams.len() && streams[from] is Some {
        lemma_first_vacant(streams, from + 1);
    }
}

proof fn lemma_live_bound(streams: Seq<Option<StreamView>>)
    ensures
        live(streams) <= streams.len(),
        live(streams) == streams.len() <==> forall|i: int|
            0 <= i < streams.len() ==> #[trigger] streams[i] is Some,
    decreases streams.len(),
{
    if streams.len() > 0 {
        let before = streams.drop_last();
        lemma_live_bound(before);
        assert forall|i: int| 0 <= i < before.len() implies #[trigger] before[i] == streams[i] by {}
        if forall|i: int| 0 <= i < streams.len() ==> #[trigger] streams[i] is Some {
            assert(streams[streams.len() - 1] is Some);
            assert forall|i: int| 0 <= i < before.len() implies #[trigger] before[i] is Some by {
                assert(streams[i] is Some);
            }
        }
        if live(streams) == streams.len() {
            assert forall|i: int| 0 <= i < streams.len() implies #[trigger] streams[i] is Some by {
                if i < before.len() {
                    assert(before[i] is Some);
                }
            }
        }
    }
}

/// A stream that is not gone counts.
proof fn lemma_live_positive(streams: Seq<Option<StreamView>>, index: int)
    requires
        0 <= index < streams.len(),
        streams[index] is Some,
    ensures
        live(streams) > 0,
    decreases streams.len(),
{
    if index < streams.len() - 1 {
        lemma_live_positive(streams.drop_last(), index);
    }
}

impl AudioView {
    pub open spec fn wf(self) -> bool {
        &&& self.running.len() == 3
        &&& forall|i: int|
            0 <= i < self.streams.len() ==> (#[trigger] self.streams[i] matches Some(stream) ==> {
                &&& stream.wf()
                &&& self.rate == Some(stream.rate)
            })
        &&& self.slot_wf(Slot::Output12)
        &&& self.slot_wf(Slot::Output34)
        &&& self.slot_wf(Slot::Input12)
        &&& live(self.streams) <= self.claimed
        &&& self.rate is None <==> self.claimed == 0
        &&& self.prepared >= 0
        &&& self.engine ==> self.prepared > 0
    }

    /// What runs in a slot is one of its streams.
    pub open spec fn slot_wf(self, slot: Slot) -> bool {
        self.running[slot.index_spec()] matches Some(id) ==> {
            &&& 0 <= id < self.streams.len()
            &&& self.streams[id] matches Some(stream) && stream.slot == slot
        }
    }

    pub open spec fn is_live(self, id: int) -> bool {
        0 <= id < self.streams.len() && self.streams[id] is Some
    }

    /// The stream that runs in `slot`.
    pub open spec fn running_stream(self, slot: Slot) -> Option<StreamView> {
        match self.running[slot.index_spec()] {
            Some(id) => self.streams[id],
            None => None,
        }
    }

    /// The number that the next stream gets: the first place whose stream is
    /// gone, or else a new one.
    pub open spec fn next_id(self) -> int {
        match first_vacant(self.streams, 0) {
            Some(place) => place,
            None => self.streams.len() as int,
        }
    }

    /// There is one more stream.
    pub open spec fn added(self, stream: StreamView) -> AudioView {
        AudioView {
            streams: match first_vacant(self.streams, 0) {
                Some(place) => self.streams.update(place, Some(stream)),
                None => self.streams.push(Some(stream)),
            },
            ..self
        }
    }

    /// Stream `id` has become `stream`.
    pub open spec fn with_stream(self, id: int, stream: StreamView) -> AudioView {
        AudioView { streams: self.streams.update(id, Some(stream)), ..self }
    }

    /// The stream that runs in `slot` has become `stream`.
    pub open spec fn with_running(self, slot: Slot, stream: StreamView) -> AudioView {
        self.with_stream(self.running[slot.index_spec()]->0, stream)
    }

    /// The frame counter of the stream that runs in `slot` can count `frames` more.
    pub open spec fn slot_has_room(self, slot: Slot, frames: int) -> bool {
        self.running_stream(slot) matches Some(stream) ==> stream.frames + frames <= u64::MAX
    }

    pub open spec fn has_room(self, frames: int) -> bool {
        &&& self.slot_has_room(Slot::Output12, frames)
        &&& self.slot_has_room(Slot::Output34, frames)
        &&& self.slot_has_room(Slot::Input12, frames)
    }

    /// The clock is reserved once more, if it runs at `rate` or not at all.
    pub open spec fn claimed_at(self, rate: SampleRate) -> AudioView {
        if self.rate is Some && self.rate != Some(rate) {
            self
        } else {
            AudioView { rate: Some(rate), claimed: self.claimed + 1, ..self }
        }
    }

    pub open spec fn claim_result(self, rate: SampleRate) -> Result<(), NtStatus> {
        if self.rate is Some && self.rate != Some(rate) {
            Err(STATUS_NOT_SUPPORTED)
        } else {
            Ok(())
        }
    }

    /// One reservation of the clock is given up.
    pub open spec fn released(self) -> AudioView {
        AudioView {
            claimed: self.claimed - 1,
            rate: if self.claimed == 1 {
                None
            } else {
                self.rate
            },
            ..self
        }
    }

    /// Stream `id` runs no more.
    pub open spec fn paused(self, id: int) -> AudioView {
        let slot = (self.streams[id]->0).slot.index_spec();
        if self.running[slot] == Some(id) {
            AudioView { running: self.running.update(slot, None), ..self }
        } else {
            self
        }
    }

    /// The samples that `slot` plays next: silence where no stream runs.
    pub open spec fn next_pair(self, slot: Slot) -> (int, int) {
        match self.running_stream(slot) {
            Some(stream) => stream.next_frame(),
            None => (0, 0),
        }
    }

    /// The next playback frame for both output pairs.
    pub open spec fn next_frame(self) -> Frame {
        let first = self.next_pair(Slot::Output12);
        let second = self.next_pair(Slot::Output34);
        [first.0 as i32, first.1 as i32, second.0 as i32, second.1 as i32]
    }

    pub open spec fn engine_start(self, rate: SampleRate) -> Result<EngineStart, NtStatus> {
        match self.spec {
            Some(spec) => Ok(
                EngineStart { rate, max_packet_bytes: spec.max_packet_bytes_spec(rate) as u16 },
            ),
            None => Err(STATUS_DEVICE_NOT_READY),
        }
    }
}

impl AudioView {
    /// Streaming has stopped, but what is prepared stays so.
    pub open spec fn suspended(self) -> AudioView {
        AudioView { engine: false, ..self }
    }

    /// How streaming is started again, where there is anything to stream.
    pub open spec fn resume_start(self) -> Result<Option<EngineStart>, NtStatus> {
        match self.rate {
            Some(rate) if self.prepared > 0 && !self.engine => match self.engine_start(rate) {
                Ok(start) => Ok(Some(start)),
                Err(status) => Err(status),
            },
            _ => Ok(None),
        }
    }
}

/// The audio state and the packets finished so far while a transfer is processed.
#[verifier::ext_equal]
pub struct Mix {
    pub audio: AudioView,
    pub completions: Seq<SlotCompletion>,
}

impl Mix {
    /// The stream that runs in `slot` has become `stream` and may have
    /// finished a packet.
    pub open spec fn moved(
        self,
        slot: Slot,
        stream: StreamView,
        completion: Option<Completion>,
    ) -> Mix {
        Mix {
            audio: self.audio.with_running(slot, stream),
            completions: match completion {
                Some(completion) => self.completions.push(SlotCompletion { slot, completion }),
                None => self.completions,
            },
        }
    }

    /// One frame of `slot` was played at `qpc`.
    pub open spec fn rendered_slot(self, slot: Slot, qpc: u64) -> Mix {
        match self.audio.running_stream(slot) {
            Some(stream) => self.moved(slot, stream.rendered(qpc as int), stream.completion(qpc)),
            None => self,
        }
    }

    /// One frame of both output pairs was played at `qpc`.
    pub open spec fn rendered(self, qpc: u64) -> Mix {
        self.rendered_slot(Slot::Output12, qpc).rendered_slot(Slot::Output34, qpc)
    }

    /// One frame of the inputs was delivered at `qpc`.
    pub open spec fn captured(self, left: int, right: int, qpc: u64) -> Mix {
        match self.audio.running_stream(Slot::Input12) {
            Some(stream) => self.moved(
                Slot::Input12,
                stream.captured(left, right, qpc as int),
                stream.completion(qpc),
            ),
            None => self,
        }
    }
}

/// A stream that keeps its slot and rate keeps the audio state well formed.
proof fn lemma_with_stream(audio: AudioView, id: int, stream: StreamView)
    requires
        audio.wf(),
        audio.is_live(id),
        stream.slot == (audio.streams[id]->0).slot,
        stream.rate == (audio.streams[id]->0).rate,
        stream.wf(),
    ensures
        audio.with_stream(id, stream).wf(),
{
    lemma_live_update(audio.streams, id, Some(stream));
}

/// Playing a frame of `slot` moves the stream there by at most one frame.
pub proof fn lemma_rendered_slot(mix: Mix, slot: Slot, qpc: u64)
    requires
        mix.audio.wf(),
        mix.audio.slot_has_room(slot, 1),
    ensures
        mix.rendered_slot(slot, qpc).audio.wf(),
        forall|frames: int| frames >= 0 && mix.audio.slot_has_room(slot, frames + 1)
            ==> #[trigger] mix.rendered_slot(slot, qpc).audio.slot_has_room(slot, frames),
        forall|other: Slot|
            other != slot ==> #[trigger] mix.rendered_slot(slot, qpc).audio.running_stream(other)
                == mix.audio.running_stream(other),
{
    assert(mix.audio.slot_wf(slot));
    match mix.audio.running_stream(slot) {
        Some(stream) => {
            lemma_with_running(mix.audio, slot, stream.rendered(qpc as int));
        },
        None => {},
    }
}

/// Playing a frame moves the streams by at most one frame.
pub proof fn lemma_rendered(mix: Mix, qpc: u64)
    requires
        mix.audio.wf(),
        mix.audio.has_room(1),
    ensures
        mix.rendered(qpc).audio.wf(),
        forall|frames: int|
            frames >= 0 && mix.audio.has_room(frames + 1) ==> #[trigger] mix.rendered(
                qpc,
            ).audio.has_room(frames),
{
    let first = mix.rendered_slot(Slot::Output12, qpc);
    lemma_rendered_slot(mix, Slot::Output12, qpc);
    lemma_rendered_slot(first, Slot::Output34, qpc);
    let last = mix.rendered(qpc);
    assert(first.audio.running_stream(Slot::Output34) == mix.audio.running_stream(Slot::Output34));
    assert(first.audio.running_stream(Slot::Input12) == mix.audio.running_stream(Slot::Input12));
    assert(last.audio.running_stream(Slot::Output12) == first.audio.running_stream(Slot::Output12));
    assert(last.audio.running_stream(Slot::Input12) == first.audio.running_stream(Slot::Input12));
    assert forall|frames: int| frames >= 0 && mix.audio.has_room(frames + 1) implies #[trigger] last
        .audio.has_room(frames) by {
        assert(first.audio.slot_has_room(Slot::Output12, frames));
        assert(last.audio.slot_has_room(Slot::Output34, frames));
    }
}

/// Delivering a frame moves the input stream by at most one frame.
pub proof fn lemma_captured(mix: Mix, left: int, right: int, qpc: u64)
    requires
        mix.audio.wf(),
        mix.audio.has_room(1),
    ensures
        mix.captured(left, right, qpc).audio.wf(),
        forall|frames: int|
            frames >= 0 && mix.audio.has_room(frames + 1) ==> #[trigger] mix.captured(
                left,
                right,
                qpc,
            ).audio.has_room(frames),
{
    match mix.audio.running_stream(Slot::Input12) {
        Some(stream) => {
            let after = stream.captured(left, right, qpc as int);
            lemma_stored_shape(stream, left, right);
            lemma_with_running(mix.audio, Slot::Input12, after);
            let last = mix.audio.with_running(Slot::Input12, after);
            assert(last.running_stream(Slot::Output12) == mix.audio.running_stream(Slot::Output12));
            assert(last.running_stream(Slot::Output34) == mix.audio.running_stream(Slot::Output34));
        },
        None => {},
    }
}

/// A stream that moves on keeps the audio state well formed.
pub proof fn lemma_with_running(audio: AudioView, slot: Slot, stream: StreamView)
    requires
        audio.wf(),
        audio.running_stream(slot) matches Some(before) && stream.slot == before.slot
            && stream.rate == before.rate,
        stream.wf(),
    ensures
        audio.with_running(slot, stream).wf(),
        audio.with_running(slot, stream).running_stream(slot) == Some(stream),
        forall|other: Slot|
            other != slot ==> #[trigger] audio.with_running(slot, stream).running_stream(other)
                == audio.running_stream(other),
{
    let id = audio.running[slot.index_spec()]->0;
    lemma_live_update(audio.streams, id, Some(stream));
    let after = audio.with_running(slot, stream);
    assert forall|other: Slot| other != slot implies #[trigger] after.running_stream(other)
        == audio.running_stream(other) by {
        assert(audio.slot_wf(other));
    }
}

impl View for Audio {
    type V = AudioView;

    closed spec fn view(&self) -> AudioView {
        AudioView {
            streams: Seq::new(
                self.streams@.len(),
                |i: int|
                    match self.streams@[i] {
                        Some(stream) => Some(stream@),
                        None => None,
                    },
            ),
            running: Seq::new(
                3,
                |slot: int|
                    match self.running@[slot] {
                        Some(id) => Some(id as int),
                        None => None,
                    },
            ),
            claimed: self.claimed as int,
            rate: self.rate,
            spec: self.spec,
            prepared: self.prepared as int,
            engine: self.engine,
        }
    }
}

impl Audio {
    /// No streams, and no device yet.
    pub fn new() -> (audio: Audio)
        ensures
            audio@ == (AudioView {
                streams: seq![],
                running: seq![None, None, None],
                claimed: 0,
                rate: None,
                spec: None,
                prepared: 0,
                engine: false,
            }),
            audio@.wf(),
    {
        let audio = Audio {
            streams: Vec::new(),
            running: [None, None, None],
            claimed: 0,
            rate: None,
            spec: None,
            prepared: 0,
            engine: false,
        };
        assert(audio@.streams =~= seq![]);
        assert(audio@.running =~= seq![None, None, None]);
        audio
    }

    /// The device is there.
    pub fn attach(&mut self, spec: DeviceSpec)
        ensures
            final(self)@ == (AudioView { spec: Some(spec), ..old(self)@ }),
            old(self)@.wf() ==> final(self)@.wf(),
    {
        self.spec = Some(spec);
    }

    /// How often the device clock is reserved.
    pub fn claimed(&self) -> (claimed: u32)
        ensures
            claimed == self@.claimed,
    {
        self.claimed
    }

    /// Reserves the device clock for a new stream at `rate`.
    pub fn claim_rate(&mut self, rate: SampleRate) -> (result: Result<(), NtStatus>)
        requires
            old(self)@.wf(),
            old(self)@.claimed < u32::MAX,
        ensures
            final(self)@ == old(self)@.claimed_at(rate),
            result == old(self)@.claim_result(rate),
            final(self)@.wf(),
    {
        match self.rate {
            Some(current) => {
                if current != rate {
                    return Err(STATUS_NOT_SUPPORTED);
                }
            },
            None => {},
        }
        self.rate = Some(rate);
        self.claimed = self.claimed + 1;
        proof {
            if old(self)@.rate is None {
                assert forall|i: int| 0 <= i < self@.streams.len() implies self@.streams[i] is None by {
                    if self@.streams[i] is Some {
                        lemma_live_positive(self@.streams, i);
                    }
                }
            }
        }
        Ok(())
    }

    /// Gives up a reservation that no stream needs.
    pub fn release_rate(&mut self)
        requires
            old(self)@.wf(),
            live(old(self)@.streams) < old(self)@.claimed,
        ensures
            final(self)@ == old(self)@.released(),
            final(self)@.wf(),
    {
        self.claimed = self.claimed - 1;
        if self.claimed == 0 {
            self.rate = None;
            proof {
                assert forall|i: int| 0 <= i < self@.streams.len() implies self@.streams[i] is None by {
                    if self@.streams[i] is Some {
                        lemma_live_positive(self@.streams, i);
                    }
                }
            }
        }
    }

    /// Adds a stream for which the clock is reserved and gives its number.
    pub fn add_stream(&mut self, stream: RtStream) -> (id: usize)
        requires
            old(self)@.wf(),
            stream@.wf(),
            old(self)@.rate == Some(stream@.rate),
            live(old(self)@.streams) < old(self)@.claimed,
        ensures
            id == old(self)@.next_id(),
            final(self)@ == old(self)@.added(stream@),
            final(self)@.is_live(id as int),
            final(self)@.wf(),
    {
        let ghost before = self@;
        let mut id: usize = 0;
        while id < self.streams.len() && self.streams[id].is_some()
            invariant
                id <= self.streams.len(),
                self@ == before,
                first_vacant(before.streams, 0) == first_vacant(before.streams, id as int),
            decreases self.streams.len() - id,
        {
            id = id + 1;
        }
        if id < self.streams.len() {
            self.streams.set(id, Some(stream));
            proof {
                assert(self@.streams =~= before.streams.update(id as int, Some(stream@)));
                lemma_live_update(before.streams, id as int, Some(stream@));
            }
        } else {
            self.streams.push(Some(stream));
            proof {
                assert(self@.streams =~= before.streams.push(Some(stream@)));
                lemma_live_push(before.streams, Some(stream@));
            }
        }
        id
    }

    /// Takes a stream that does not run away, and its reservation of the clock.
    pub fn remove_stream(&mut self, id: usize)
        requires
            old(self)@.wf(),
            old(self)@.is_live(id as int),
            !old(self)@.running.contains(Some(id as int)),
        ensures
            final(self)@ == (AudioView {
                streams: old(self)@.streams.update(id as int, None),
                ..old(self)@
            }).released(),
            final(self)@.wf(),
    {
        let ghost before = self@;
        self.streams.set(id, None);
        proof {
            assert(self@.streams =~= before.streams.update(id as int, None));
            lemma_live_update(before.streams, id as int, None);
            lemma_live_positive(before.streams, id as int);
            assert(before.running.contains(before.running[0]));
            assert(before.running.contains(before.running[1]));
            assert(before.running.contains(before.running[2]));
        }
        self.release_rate();
    }

    pub fn stream(&self, id: usize) -> (stream: &RtStream)
        requires
            self@.is_live(id as int),
        ensures
            self@.streams[id as int] == Some(stream@),
    {
        self.streams[id].as_ref().unwrap()
    }

    /// Gives stream `id` its packets; see [`RtStream::allocate_packets`].
    pub fn allocate_packets(
        &mut self,
        id: usize,
        count: u32,
        packet_bytes: u32,
        memory: Option<Vec<Vec<u8>>>,
    ) -> (packets: Result<Vec<RtPacket>, NtStatus>)
        requires
            old(self)@.wf(),
            old(self)@.is_live(id as int),
            fits_packets(memory, count, packet_bytes),
        ensures
            final(self)@ == old(self)@.with_stream(
                id as int,
                old(self)@.streams[id as int]->0.allocated(count, packet_bytes, memory),
            ),
            old(self)@.streams[id as int]->0.allocation(count, packet_bytes, memory) == match packets {
                Ok(packets) => Ok(packets@),
                Err(status) => Err(status),
            },
            final(self)@.wf(),
    {
        let ghost before = self@;
        let packets = match &mut self.streams[id] {
            Some(stream) => stream.allocate_packets(count, packet_bytes, memory),
            None => Err(STATUS_NOT_SUPPORTED),
        };
        proof {
            let stream = before.streams[id as int]->0.allocated(count, packet_bytes, memory);
            assert(self@.streams =~= before.streams.update(id as int, Some(stream)));
            lemma_with_stream(before, id as int, stream);
        }
        packets
    }

    /// Takes the packets of stream `id` away.
    pub fn free_packets(&mut self, id: usize)
        requires
            old(self)@.wf(),
            old(self)@.is_live(id as int),
        ensures
            final(self)@ == old(self)@.with_stream(
                id as int,
                old(self)@.streams[id as int]->0.without_packets(),
            ),
            final(self)@.wf(),
    {
        let ghost before = self@;
        match &mut self.streams[id] {
            Some(stream) => stream.free_packets(),
            None => {},
        }
        proof {
            let stream = before.streams[id as int]->0.without_packets();
            assert(self@.streams =~= before.streams.update(id as int, Some(stream)));
            lemma_with_stream(before, id as int, stream);
        }
    }

    /// How to start the engine at `rate`.
    fn engine_start(&self, rate: SampleRate) -> (start: Result<EngineStart, NtStatus>)
        ensures
            start == self@.engine_start(rate),
    {
        match &self.spec {
            Some(spec) => Ok(EngineStart { rate, max_packet_bytes: spec.max_packet_bytes(rate) }),
            None => Err(STATUS_DEVICE_NOT_READY),
        }
    }

    /// How many streams are prepared.
    pub fn prepared(&self) -> (prepared: u32)
        ensures
            prepared == self@.prepared,
    {
        self.prepared
    }

    /// Stream `id` is about to run. Where an engine has to be started first,
    /// says how; [`Audio::engine_started`] then finishes the preparation.
    pub fn prepare(&mut self, id: usize) -> (start: Result<Option<EngineStart>, NtStatus>)
        requires
            old(self)@.wf(),
            old(self)@.is_live(id as int),
            old(self)@.prepared < u32::MAX,
        ensures
            ({
                let stream = old(self)@.streams[id as int]->0;
                let reset = old(self)@.with_stream(id as int, stream.reset());
                if old(self)@.engine {
                    &&& start == Ok::<Option<EngineStart>, NtStatus>(None)
                    &&& final(self)@ == (AudioView { prepared: reset.prepared + 1, ..reset })
                } else {
                    &&& final(self)@ == reset
                    &&& start == match reset.engine_start(stream.rate) {
                        Ok(start) => Ok(Some(start)),
                        Err(status) => Err(status),
                    }
                }
            }),
            final(self)@.wf(),
    {
        let ghost before = self@;
        let rate: SampleRate = self.stream(id).rate();
        match &mut self.streams[id] {
            Some(stream) => stream.reset(),
            None => {},
        }
        proof {
            let stream = before.streams[id as int]->0.reset();
            assert(self@.streams =~= before.streams.update(id as int, Some(stream)));
            lemma_with_stream(before, id as int, stream);
        }
        if self.engine {
            self.prepared = self.prepared + 1;
            return Ok(None);
        }
        match self.engine_start(rate) {
            Ok(start) => Ok(Some(start)),
            Err(status) => Err(status),
        }
    }

    /// The engine that a preparation asked for was started, or not.
    pub fn engine_started(&mut self, started: Result<(), NtStatus>) -> (result: Result<(), NtStatus>)
        requires
            old(self)@.wf(),
            old(self)@.prepared < u32::MAX,
        ensures
            result == started,
            final(self)@ == (if started is Ok {
                AudioView { engine: true, prepared: old(self)@.prepared + 1, ..old(self)@ }
            } else {
                old(self)@
            }),
            final(self)@.wf(),
    {
        if started.is_ok() {
            self.engine = true;
            self.prepared = self.prepared + 1;
        }
        started
    }

    /// Stream `id` will not run any more. Tells whether the engine has to be
    /// stopped now.
    pub fn release(&mut self, id: usize) -> (stop: bool)
        requires
            old(self)@.wf(),
            old(self)@.is_live(id as int),
        ensures
            ({
                let paused = old(self)@.paused(id as int);
                let prepared = if paused.prepared > 0 {
                    paused.prepared - 1
                } else {
                    0
                };
                &&& final(self)@ == (AudioView {
                    prepared,
                    engine: paused.engine && prepared > 0,
                    ..paused
                })
                &&& stop == (paused.engine && prepared == 0)
            }),
            final(self)@.wf(),
    {
        self.pause(id);
        self.prepared = self.prepared.saturating_sub(1);
        if self.prepared == 0 {
            self.stop_engine()
        } else {
            false
        }
    }

    /// Tells whether there was an engine to stop.
    fn stop_engine(&mut self) -> (stop: bool)
        ensures
            stop == old(self)@.engine,
            final(self)@ == (AudioView { engine: false, ..old(self)@ }),
    {
        let stop = self.engine;
        self.engine = false;
        stop
    }

    /// Stops streaming before the device loses power; prepared streams stay
    /// prepared and [`Audio::resume`] starts streaming for them again. Tells
    /// whether there is an engine to stop.
    pub fn suspend(&mut self) -> (stop: bool)
        requires
            old(self)@.wf(),
        ensures
            stop == old(self)@.engine,
            final(self)@ == old(self)@.suspended(),
            final(self)@.wf(),
    {
        self.stop_engine()
    }

    /// How to start streaming again once the device has power, where there is
    /// anything to stream; [`Audio::engine_resumed`] takes the outcome.
    pub fn resume(&self) -> (start: Result<Option<EngineStart>, NtStatus>)
        ensures
            start == self@.resume_start(),
    {
        match self.rate {
            Some(rate) => if self.prepared > 0 && !self.engine {
                match self.engine_start(rate) {
                    Ok(start) => Ok(Some(start)),
                    Err(status) => Err(status),
                }
            } else {
                Ok(None)
            },
            None => Ok(None),
        }
    }

    /// The engine that [`Audio::resume`] asked for was started, or not.
    pub fn engine_resumed(&mut self, started: Result<(), NtStatus>) -> (result: Result<(), NtStatus>)
        requires
            old(self)@.wf(),
            old(self)@.prepared > 0,
        ensures
            result == started,
            final(self)@ == (AudioView {
                engine: old(self)@.engine || started is Ok,
                ..old(self)@
            }),
            final(self)@.wf(),
    {
        if started.is_ok() {
            self.engine = true;
        }
        started
    }

    /// Stream `id` runs in its slot from now on.
    pub fn run(&mut self, id: usize)
        requires
            old(self)@.wf(),
            old(self)@.is_live(id as int),
        ensures
            final(self)@ == (AudioView {
                running: old(self)@.running.update(
                    old(self)@.streams[id as int]->0.slot.index_spec(),
                    Some(id as int),
                ),
                ..old(self)@
            }),
            final(self)@.wf(),
    {
        let slot: usize = self.stream(id).slot().index();
        let ghost before = self@;
        self.running[slot] = Some(id);
        assert(self@.running =~= before.running.update(slot as int, Some(id as int)));
    }

    /// Stream `id` stops running; another one in its slot runs on.
    pub fn pause(&mut self, id: usize)
        requires
            old(self)@.wf(),
            old(self)@.is_live(id as int),
        ensures
            final(self)@ == old(self)@.paused(id as int),
            final(self)@.wf(),
    {
        let slot: usize = self.stream(id).slot().index();
        let ghost before = self@;
        let runs: bool = match self.running[slot] {
            Some(other) => other == id,
            None => false,
        };
        if runs {
            self.running[slot] = None;
            assert(self@.running =~= before.running.update(slot as int, None));
        }
    }

    /// Frames moved by stream `id` and when the last one moved.
    pub fn position(&self, id: usize) -> (position: (u64, u64))
        requires
            self@.is_live(id as int),
        ensures
            position.0 == self@.streams[id as int]->0.frames,
            position.1 == self@.streams[id as int]->0.qpc,
    {
        self.stream(id).position()
    }

    /// The next frame of `slot`, played at `qpc`: silence where no stream runs.
    fn render_slot(&mut self, slot: Slot, qpc: u64, completions: &mut Vec<SlotCompletion>) -> (pair: [i32; 2])
        requires
            old(self)@.wf(),
            old(self)@.slot_has_room(slot, 1),
        ensures
            final(self)@.wf(),
            pair[0] == old(self)@.next_pair(slot).0,
            pair[1] == old(self)@.next_pair(slot).1,
            (Mix { audio: final(self)@, completions: final(completions)@ }) == (Mix {
                audio: old(self)@,
                completions: old(completions)@,
            }).rendered_slot(slot, qpc),
    {
        let ghost before = self@;
        let id: usize = match self.running[slot.index()] {
            Some(id) => id,
            None => {
                return [0, 0];
            },
        };
        assert(before.slot_wf(slot));
        let (pair, completion) = match &mut self.streams[id] {
            Some(stream) => stream.render_frame(qpc),
            None => ([0, 0], None),
        };
        proof {
            let stream = before.streams[id as int]->0.rendered(qpc as int);
            assert(self@.streams =~= before.streams.update(id as int, Some(stream)));
            lemma_with_running(before, slot, stream);
        }
        match completion {
            Some(completion) => {
                completions.push(SlotCompletion { slot, completion });
            },
            None => {},
        }
        pair
    }

    /// The next playback frame for both output pairs, played at `qpc`. Adds
    /// the packets that it finished to `completions`.
    pub fn render(&mut self, qpc: u64, completions: &mut Vec<SlotCompletion>) -> (frame: Frame)
        requires
            old(self)@.wf(),
            old(self)@.slot_has_room(Slot::Output12, 1),
            old(self)@.slot_has_room(Slot::Output34, 1),
        ensures
            final(self)@.wf(),
            frame == old(self)@.next_frame(),
            (Mix { audio: final(self)@, completions: final(completions)@ }) == (Mix {
                audio: old(self)@,
                completions: old(completions)@,
            }).rendered(qpc),
    {
        let ghost before = self@;
        let first: [i32; 2] = self.render_slot(Slot::Output12, qpc, completions);
        proof {
            lemma_rendered_slot(
                Mix { audio: before, completions: old(completions)@ },
                Slot::Output12,
                qpc,
            );
        }
        let second: [i32; 2] = self.render_slot(Slot::Output34, qpc, completions);
        let frame: Frame = [first[0], first[1], second[0], second[1]];
        assert(frame@ =~= before.next_frame()@);
        frame
    }

    /// Delivers a captured frame of inputs 1/2 at `qpc`. Adds the packet that
    /// it finished to `completions`.
    pub fn capture(&mut self, samples: [i32; 2], qpc: u64, completions: &mut Vec<SlotCompletion>)
        requires
            old(self)@.wf(),
            old(self)@.slot_has_room(Slot::Input12, 1),
        ensures
            final(self)@.wf(),
            (Mix { audio: final(self)@, completions: final(completions)@ }) == (Mix {
                audio: old(self)@,
                completions: old(completions)@,
            }).captured(samples[0] as int, samples[1] as int, qpc),
    {
        let ghost before = self@;
        let id: usize = match self.running[Slot::Input12.index()] {
            Some(id) => id,
            None => {
                return;
            },
        };
        let completion = match &mut self.streams[id] {
            Some(stream) => stream.capture_frame(samples, qpc),
            None => None,
        };
        proof {
            let stream = before.streams[id as int]->0.captured(
                samples[0] as int,
                samples[1] as int,
                qpc as int,
            );
            assert(self@.streams =~= before.streams.update(id as int, Some(stream)));
            lemma_with_running(before, Slot::Input12, stream);
        }
        match completion {
            Some(completion) => {
                completions.push(SlotCompletion { slot: Slot::Input12, completion });
            },
            None => {},
        }
    }
}

/// The places of streams that are gone are used again: the table of streams
/// grows only while none of them is.
pub proof fn law_places_are_used_again(audio: AudioView, stream: StreamView)
    ensures
        audio.added(stream).streams.len() == (if live(audio.streams) == audio.streams.len() {
            audio.streams.len() + 1
        } else {
            audio.streams.len()
        }),
        live(audio.added(stream).streams) == live(audio.streams) + 1,
        audio.added(stream).streams[audio.next_id()] == Some(stream),
        forall|id: int|
            #[trigger] audio.is_live(id) ==> audio.added(stream).streams[id] == audio.streams[id],
{
    lemma_live_bound(audio.streams);
    lemma_first_vacant(audio.streams, 0);
    match first_vacant(audio.streams, 0) {
        Some(place) => {
            lemma_live_update(audio.streams, place, Some(stream));
        },
        None => {
            lemma_live_push(audio.streams, Some(stream));
        },
    }
}

/// The device has one clock: all streams there are run at one rate.
pub proof fn law_streams_share_the_rate(audio: AudioView, a: int, b: int)
    requires
        audio.wf(),
        audio.is_live(a),
        audio.is_live(b),
    ensures
        (audio.streams[a]->0).rate == (audio.streams[b]->0).rate,
        audio.rate == Some((audio.streams[a]->0).rate),
{
}

/// While there is a stream, the clock cannot be had at another rate, and
/// asking for it changes nothing.
pub proof fn law_other_rates_are_refused(audio: AudioView, id: int, rate: SampleRate)
    requires
        audio.wf(),
        audio.is_live(id),
        (audio.streams[id]->0).rate != rate,
    ensures
        audio.claim_result(rate) == Err::<(), NtStatus>(STATUS_NOT_SUPPORTED),
        audio.claimed_at(rate) == audio,
{
}

/// The rate that is in use can always be had.
pub proof fn law_same_rate_is_shared(audio: AudioView, id: int)
    requires
        audio.wf(),
        audio.is_live(id),
    ensures
        audio.claim_result((audio.streams[id]->0).rate) is Ok,
{
}

/// Once every reservation is given up any rate can be had.
pub proof fn law_free_clock_takes_any_rate(audio: AudioView, rate: SampleRate)
    requires
        audio.wf(),
        audio.claimed == 0,
    ensures
        audio.claim_result(rate) is Ok,
        audio.claimed_at(rate).rate == Some(rate),
{
}

/// Giving a reservation up undoes it.
pub proof fn law_release_undoes_claim(audio: AudioView, rate: SampleRate)
    requires
        audio.wf(),
        audio.claim_result(rate) is Ok,
    ensures
        audio.claimed_at(rate).released() == audio,
{
}

/// Streams that were running when the device lost power are streamed again, at
/// their rate, once it is back.
pub proof fn law_power_loss_is_made_up_for(audio: AudioView, id: int)
    requires
        audio.wf(),
        audio.engine,
        audio.spec is Some,
        audio.is_live(id),
    ensures
        audio.suspended().wf(),
        audio.suspended().prepared == audio.prepared,
        audio.suspended().running == audio.running,
        audio.suspended().resume_start() matches Ok(Some(start)) && start.rate == (
        audio.streams[id]->0).rate,
{
}

/// Where no stream runs, silence is played and nothing moves.
pub proof fn law_silence_where_nothing_runs(mix: Mix, qpc: u64)
    requires
        mix.audio.running_stream(Slot::Output12) is None,
        mix.audio.running_stream(Slot::Output34) is None,
    ensures
        mix.audio.next_frame()@ == seq![0i32, 0i32, 0i32, 0i32],
        mix.rendered(qpc) == mix,
{
    assert(mix.audio.next_frame()@ =~= seq![0i32, 0i32, 0i32, 0i32]);
}

/// A new stream takes the lowest place that is free, or a new one at the end
/// where none is, and no other stream changes.
pub proof fn law_streams_take_the_lowest_place(audio: AudioView, stream: StreamView, i: int)
    ensures
        0 <= audio.next_id() <= audio.streams.len(),
        0 <= i < audio.next_id() ==> audio.streams[i] is Some,
        audio.next_id() < audio.streams.len() ==> audio.streams[audio.next_id()] is None,
        audio.added(stream).streams[audio.next_id()] == Some(stream),
        0 <= i < audio.streams.len() && i != audio.next_id() ==> audio.added(stream).streams[i]
            == audio.streams[i],
        audio.added(stream).running == audio.running,
        audio.added(stream).claimed == audio.claimed,
        audio.added(stream).prepared == audio.prepared,
{
    lemma_first_vacant(audio.streams, 0);
    lemma_lowest_vacant(audio.streams, 0);
}

proof fn lemma_lowest_vacant(streams: Seq<Option<StreamView>>, from: int)
    requires
        0 <= from,
    ensures
        first_vacant(streams, from) matches Some(place) ==> forall|i: int|
            from <= i < place ==> #[trigger] streams[i] is Some,
    decreases streams.len() - from,
{
    if from < streams.len() && streams[from] is Some {
        lemma_lowest_vacant(streams, from + 1);
    }
}

/// Every reservation counts, the first fixes the rate, and the rate is free
/// again when the last is given up.
pub proof fn law_reservations_are_counted(audio: AudioView, rate: SampleRate)
    requires
        audio.wf(),
    ensures
        audio.claimed == 0 || audio.rate == Some(rate) ==> {
            &&& audio.claim_result(rate) == Ok::<(), NtStatus>(())
            &&& audio.claimed_at(rate).claimed == audio.claimed + 1
            &&& audio.claimed_at(rate).rate == Some(rate)
            &&& audio.claimed_at(rate).streams == audio.streams
            &&& audio.claimed_at(rate).running == audio.running
        },
        audio.claimed > 0 && audio.rate != Some(rate) ==> {
            &&& audio.claim_result(rate) == Err::<(), NtStatus>(STATUS_NOT_SUPPORTED)
            &&& audio.claimed_at(rate) == audio
        },
        audio.released().claimed == audio.claimed - 1,
        audio.claimed > 1 ==> audio.released().rate == audio.rate,
        audio.claimed == 1 ==> audio.released().rate is None,
        audio.released().streams == audio.streams,
        audio.released().running == audio.running,
{
}

/// A stream that pauses runs nowhere any more, and what runs in the other slots,
/// or in its own in its stead, runs on.
pub proof fn law_pausing_stops_one_stream(audio: AudioView, id: int, slot: int)
    requires
        audio.wf(),
        audio.is_live(id),
        0 <= slot < 3,
    ensures
        audio.paused(id).running.len() == 3,
        !audio.paused(id).running.contains(Some(id)),
        audio.running[slot] != Some(id) ==> audio.paused(id).running[slot] == audio.running[slot],
        audio.running[slot] == Some(id) ==> audio.paused(id).running[slot] is None,
        audio.paused(id).streams == audio.streams,
        audio.paused(id).prepared == audio.prepared,
        audio.paused(id).engine == audio.engine,
{
    assert(audio.slot_wf(Slot::Output12));
    assert(audio.slot_wf(Slot::Output34));
    assert(audio.slot_wf(Slot::Input12));
    assert(slot == 0 || slot == 1 || slot == 2);
    let after = audio.paused(id).running;
    assert forall|i: int| 0 <= i < 3 implies #[trigger] after[i] != Some(id) by {
        assert(i == 0 || i == 1 || i == 2);
    }
}

/// Streaming starts at the rate asked for with the device's largest packet, and
/// cannot before the device is there. It starts again after a loss of power where
/// something is prepared, and only there.
pub proof fn law_engines_start_for_the_device(audio: AudioView, rate: SampleRate)
    ensures
        audio.spec is None ==> audio.engine_start(rate) == Err::<EngineStart, NtStatus>(
            STATUS_DEVICE_NOT_READY,
        ),
        audio.spec matches Some(spec) ==> {
            &&& audio.engine_start(rate) matches Ok(start)
            &&& (audio.engine_start(rate)->Ok_0).rate == rate
            &&& (audio.engine_start(rate)->Ok_0).max_packet_bytes == spec.max_packet_bytes_spec(rate)
        },
        audio.engine || audio.prepared <= 0 || audio.rate is None ==> audio.resume_start() == Ok::<
            Option<EngineStart>,
            NtStatus,
        >(None),
        !audio.engine && audio.prepared > 0 && audio.rate == Some(rate) ==> match audio.spec {
            Some(spec) => audio.resume_start() == Ok::<Option<EngineStart>, NtStatus>(
                Some(
                    EngineStart { rate, max_packet_bytes: spec.max_packet_bytes_spec(rate) as u16 },
                ),
            ),
            None => audio.resume_start() == Err::<Option<EngineStart>, NtStatus>(
                STATUS_DEVICE_NOT_READY,
            ),
        },
        !audio.suspended().engine,
        audio.suspended().prepared == audio.prepared,
        audio.suspended().streams == audio.streams,
        audio.suspended().running == audio.running,
{
}

/// Of a playback frame the first two samples are those of outputs 1/2 and the
/// last two those of outputs 3/4.
pub proof fn law_frames_join_the_output_pairs(audio: AudioView)
    requires
        audio.wf(),
    ensures
        audio.running[0] matches Some(id) ==> {
            &&& audio.next_frame()@[0] == (audio.streams[id]->0).next_frame().0 as i32
            &&& audio.next_frame()@[1] == (audio.streams[id]->0).next_frame().1 as i32
        },
        audio.running[1] matches Some(id) ==> {
            &&& audio.next_frame()@[2] == (audio.streams[id]->0).next_frame().0 as i32
            &&& audio.next_frame()@[3] == (audio.streams[id]->0).next_frame().1 as i32
        },
        audio.running[0] is None ==> audio.next_frame()@[0] == 0 && audio.next_frame()@[1] == 0,
        audio.running[1] is None ==> audio.next_frame()@[2] == 0 && audio.next_frame()@[3] == 0,
{
    assert(audio.slot_wf(Slot::Output12));
    assert(audio.slot_wf(Slot::Output34));
}

/// A stream that is run runs in the slot that is its own, and what runs in the
/// other slots runs on.
pub proof fn law_streams_run_in_their_slot(id: usize)
    ensures
        forall|audio: &mut Audio| #[trigger]
            call_ensures(Audio::run, (audio, id), ()) && (*audio)@.wf() && (*audio)@.is_live(
                id as int,
            ) ==> {
                let before = (*audio)@;
                let after = (*final(audio))@;
                let slot = (before.streams[id as int]->0).slot;
                &&& after.running.contains(Some(id as int))
                &&& after.running_stream(slot) == before.streams[id as int]
                &&& slot != Slot::Output12 ==> after.running[0] == before.running[0]
                &&& slot != Slot::Output34 ==> after.running[1] == before.running[1]
                &&& slot != Slot::Input12 ==> after.running[2] == before.running[2]
                &&& after.streams == before.streams
            },
{
    assert forall|audio: &mut Audio| #[trigger]
        call_ensures(Audio::run, (audio, id), ()) && (*audio)@.wf() && (*audio)@.is_live(
            id as int,
        ) implies (*final(audio))@.running.contains(Some(id as int)) by {
        let slot = ((*audio)@.streams[id as int]->0).slot;
        assert((*final(audio))@.running[slot.index_spec()] == Some(id as int));
    }
}

/// Preparing a stream sets it back to its first frame. The engine is started for
/// the first stream that is prepared, at the stream's rate, and stopped when the
/// last one is released.
pub proof fn law_engine_runs_while_streams_are_prepared(id: usize)
    ensures
        forall|audio: &mut Audio, start: Result<Option<EngineStart>, NtStatus>| #[trigger]
            call_ensures(Audio::prepare, (audio, id), start) && (*audio)@.is_live(id as int) ==> {
                let before = (*audio)@;
                let after = (*final(audio))@;
                let stream = before.streams[id as int]->0;
                &&& after.streams[id as int] matches Some(now) && now.frames == 0 && now.buffers
                    == stream.buffers
                &&& after.engine == before.engine
                &&& before.engine ==> after.prepared == before.prepared + 1
                &&& before.engine ==> start == Ok::<Option<EngineStart>, NtStatus>(None)
                &&& !before.engine ==> after.prepared == before.prepared
                &&& !before.engine && before.spec is Some ==> (start matches Ok(Some(
                    how,
                )) && how.rate == stream.rate)
                &&& !before.engine && before.spec is None ==> start is Err
            },
        forall|audio: &mut Audio, stop: bool| #[trigger]
            call_ensures(Audio::release, (audio, id), stop) && (*audio)@.wf() && (*audio)@.is_live(
                id as int,
            ) ==> {
                let before = (*audio)@;
                let after = (*final(audio))@;
                &&& !after.running.contains(Some(id as int))
                &&& before.prepared > 0 ==> after.prepared == before.prepared - 1
                &&& stop <==> before.engine && before.prepared <= 1
                &&& after.engine <==> before.engine && before.prepared > 1
            },
{
    assert forall|audio: &mut Audio, stop: bool| #[trigger]
        call_ensures(Audio::release, (audio, id), stop) && (*audio)@.wf() && (*audio)@.is_live(
            id as int,
        ) implies !(*final(audio))@.running.contains(Some(id as int)) by {
        law_pausing_stops_one_stream((*audio)@, id as int, 0);
    }
}

} // verus!
