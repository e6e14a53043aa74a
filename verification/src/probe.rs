//! What the probe does with its arguments, with captured packets and with
//! endpoints.

use std::collections::BTreeMap;

use vstd::prelude::*;
use vstd::slice::slice_subrange;

use crate::circuit::WAVE_FORMAT_EXTENSIBLE;
use crate::com::{check_win32, from_win32_spec, HResult};
use crate::duplex::{endpoint_slot, endpoint_slot_spec};
use crate::proto::{DeviceSpec, SampleRate, CHANNELS_PER_STREAM};
use crate::rt::Slot;
use crate::stream::IsoPacket;
use crate::text::{
    chars_of, chars_within, decimal_nat, hex_text, holds, holds_at, parse_unsigned,
    parse_unsigned_spec, push_hex_byte, push_number, same_text, string_of,
};

verus! {

pub const USAGE: &'static str =
    "usage: ak1-probe info | capture <rate-hz> <seconds> [raw-output-file] | endpoints | play <endpoint> <seconds> <tone-hz> [exclusive-rate-hz] | identify <endpoint> | record <endpoint> <seconds> [exclusive-rate-hz]";

/// How often the device is opened again: WinUSB keeps it exclusively open for
/// up to a second after the previous handle closes.
pub const OPEN_ATTEMPTS: u32 = 30;

/// 0x80070005
pub const E_ACCESSDENIED: i32 = -2147024891;

/// How many messages are read while waiting for the answer to a command.
pub const REPLY_MESSAGES: usize = 16;

#[derive(Clone, Copy, Debug, PartialEq, Eq, Structural)]
pub enum Command {
    Info,
    /// Rate, seconds and perhaps a file.
    Capture,
    Endpoints,
    /// An endpoint.
    Identify,
    /// Endpoint, seconds, tone and perhaps a rate.
    Play,
    /// Endpoint, seconds and perhaps a rate.
    Record,
}

/// The command that arguments name, where their number suits it.
pub open spec fn command_spec(args: Seq<String>) -> Option<Command> {
    if args.len() == 0 {
        None
    } else if args[0]@ == "info"@ && args.len() == 1 {
        Some(Command::Info)
    } else if args[0]@ == "capture"@ && 3 <= args.len() <= 4 {
        Some(Command::Capture)
    } else if args[0]@ == "endpoints"@ && args.len() == 1 {
        Some(Command::Endpoints)
    } else if args[0]@ == "identify"@ && args.len() == 2 {
        Some(Command::Identify)
    } else if args[0]@ == "play"@ && 4 <= args.len() <= 5 {
        Some(Command::Play)
    } else if args[0]@ == "record"@ && 3 <= args.len() <= 4 {
        Some(Command::Record)
    } else {
        None
    }
}

/// The command that the arguments name.
pub fn command(args: &[String]) -> (command: Result<Command, &'static str>)
    ensures
        match command {
            Ok(command) => command_spec(args@) == Some(command),
            Err(usage) => command_spec(args@) is None && usage@ == USAGE@,
        },
{
    let count: usize = args.len();
    if count == 0 {
        return Err(USAGE);
    }
    let name: &str = args[0].as_str();
    if same_text(name, "info") && count == 1 {
        Ok(Command::Info)
    } else if same_text(name, "capture") && 3 <= count && count <= 4 {
        Ok(Command::Capture)
    } else if same_text(name, "endpoints") && count == 1 {
        Ok(Command::Endpoints)
    } else if same_text(name, "identify") && count == 2 {
        Ok(Command::Identify)
    } else if same_text(name, "play") && 4 <= count && count <= 5 {
        Ok(Command::Play)
    } else if same_text(name, "record") && 3 <= count && count <= 4 {
        Ok(Command::Record)
    } else {
        Err(USAGE)
    }
}

/// What is wrong with a rate.
#[derive(Clone, Copy, Debug, PartialEq, Eq, Structural)]
pub enum RateFault {
    NotANumber,
    Unsupported(u32),
}

/// The rate that `text` names.
pub fn capture_rate(text: &str) -> (rate: Result<SampleRate, RateFault>)
    ensures
        match parse_unsigned_spec(text@, u32::MAX as int) {
            None => rate == Err::<SampleRate, RateFault>(RateFault::NotANumber),
            Some(hz) => match SampleRate::from_hz_spec(hz) {
                Some(found) => rate == Ok::<SampleRate, RateFault>(found),
                None => rate == Err::<SampleRate, RateFault>(RateFault::Unsupported(hz as u32)),
            },
        },
{
    let chars: Vec<char> = chars_of(text);
    match parse_unsigned(chars.as_slice(), u32::MAX as u64) {
        None => Err(RateFault::NotANumber),
        Some(hz) => match SampleRate::from_hz(hz as u32) {
            Some(rate) => Ok(rate),
            None => Err(RateFault::Unsupported(hz as u32)),
        },
    }
}

/// "unsupported sample rate 8000"
pub fn unsupported_rate(hz: u32) -> (text: String)
    ensures
        text@ == "unsupported sample rate "@ + decimal_nat(hz as int),
{
    let mut text: String = string_of("unsupported sample rate ");
    push_number(&mut text, hz as u64);
    text
}

/// "device rejected 48000 Hz, max packet 176"
pub fn rejected(rate_hz: u32, max_packet: u16) -> (text: String)
    ensures
        text@ == "device rejected "@ + decimal_nat(rate_hz as int) + " Hz, max packet "@ + decimal_nat(
            max_packet as int,
        ),
{
    let mut text: String = string_of("device rejected ");
    push_number(&mut text, rate_hz as u64);
    text.append(" Hz, max packet ");
    push_number(&mut text, max_packet as u64);
    text
}

/// Whether to open the device again after `attempts` failed attempts, the last
/// with the result `code`.
pub fn open_again(attempts: u32, code: i32) -> (again: bool)
    ensures
        again == (code == E_ACCESSDENIED && attempts < OPEN_ATTEMPTS),
{
    code == E_ACCESSDENIED && attempts < OPEN_ATTEMPTS
}

/// Where the first NUL of `list` from `from` on is.
pub open spec fn nul_at(list: Seq<u16>, from: int) -> Option<int>
    decreases list.len() - from,
{
    if from < 0 || from >= list.len() {
        None
    } else if list[from] == 0 {
        Some(from)
    } else {
        nul_at(list, from + 1)
    }
}

/// The first path of a list of NUL-terminated ones, with its NUL; `None` where
/// there is none.
pub fn first_path(list: &[u16]) -> (path: Option<Vec<u16>>)
    ensures
        match path {
            Some(path) => {
                &&& nul_at(list@, 0) matches Some(end) && end > 0 && path@ == list@.subrange(0, end + 1)
            },
            None => nul_at(list@, 0) is None || nul_at(list@, 0) == Some(0int),
        },
{
    let mut path: Vec<u16> = Vec::new();
    let mut i: usize = 0;
    while i < list.len()
        invariant
            i <= list.len(),
            path@ =~= list@.subrange(0, i as int),
            nul_at(list@, 0) == nul_at(list@, i as int),
        decreases list.len() - i,
    {
        path.push(list[i]);
        if list[i] == 0 {
            if i == 0 {
                return None;
            }
            assert(path@ =~= list@.subrange(0, i + 1));
            return Some(path);
        }
        i = i + 1;
    }
    None
}

pub const ERROR_IO_PENDING: u32 = 997;

/// The outcome of queueing a transfer: one that is pending is queued.
pub fn submitted(result: Result<(), HResult>) -> (outcome: Result<(), HResult>)
    ensures
        outcome == match result {
            Err(code) if code != from_win32_spec(ERROR_IO_PENDING) => Err(code),
            _ => Ok(()),
        },
{
    match result {
        Ok(()) => Ok(()),
        Err(code) => match check_win32(ERROR_IO_PENDING) {
            Err(pending) => if code != pending {
                Err(code)
            } else {
                Ok(())
            },
            Ok(()) => Err(code),
        },
    }
}

/// Whether a command of `len` bytes was written in full.
pub fn check_written(command: u8, written: u32, len: usize) -> (result: Result<(), String>)
    ensures
        match result {
            Ok(()) => written == len,
            Err(text) => written != len && text@ == "command 0x"@ + hex_text(command as int / 16)
                + hex_text(command as int % 16) + ": wrote "@ + decimal_nat(written as int) + " of "@
                + decimal_nat(len as int) + " bytes"@,
        },
{
    if written as u64 == len as u64 {
        return Ok(());
    }
    let mut text: String = string_of("command 0x");
    push_hex_byte(&mut text, command);
    text.append(": wrote ");
    push_number(&mut text, written as u64);
    text.append(" of ");
    push_number(&mut text, len as u64);
    text.append(" bytes");
    Err(text)
}

/// A ring of isochronous transfers that are kept queued on one pipe.
#[derive(Clone, Copy, Debug, PartialEq, Eq, Structural)]
pub struct TransferRing {
    pub packet_size: usize,
    pub packets_per_transfer: usize,
    pub transfers: usize,
    /// The oldest transfer.
    pub next: usize,
}

/// Where a transfer has its packets and its bytes.
#[derive(Clone, Copy, Debug, PartialEq, Eq, Structural)]
pub struct TransferPlace {
    pub index: usize,
    pub first_packet: usize,
    pub offset: usize,
    pub bytes: usize,
}

impl TransferRing {
    pub open spec fn wf(self) -> bool {
        &&& self.next < self.transfers
        &&& self.packet_size * self.packets_per_transfer * self.transfers <= usize::MAX
        &&& self.packets_per_transfer * self.transfers <= usize::MAX
    }

    /// A ring of `transfers` transfers of `packets_per_transfer` packets,
    /// which has to be a multiple of 8 (one high-speed frame).
    pub fn new(packet_size: usize, packets_per_transfer: usize, transfers: usize) -> (ring: TransferRing)
        requires
            transfers > 0,
            packets_per_transfer % 8 == 0,
            packet_size * packets_per_transfer * transfers <= usize::MAX,
            packets_per_transfer * transfers <= usize::MAX,
        ensures
            ring == (TransferRing { packet_size, packets_per_transfer, transfers, next: 0 }),
            ring.wf(),
    {
        TransferRing { packet_size, packets_per_transfer, transfers, next: 0 }
    }

    /// Where transfer `index` has its packets and its bytes.
    pub fn place(&self, index: usize) -> (place: TransferPlace)
        requires
            self.wf(),
            index < self.transfers,
        ensures
            place.index == index,
            place.first_packet == index * self.packets_per_transfer,
            place.bytes == self.packet_size * self.packets_per_transfer,
            place.offset == index * (self.packet_size * self.packets_per_transfer),
    {
        let ghost bytes = self.packet_size * self.packets_per_transfer;
        assert(0 <= bytes <= bytes * self.transfers && 0 <= index * bytes <= bytes * self.transfers)
            by (nonlinear_arith)
            requires
                bytes == self.packet_size * self.packets_per_transfer,
                0 <= index < self.transfers,
        ;
        assert(0 <= index * self.packets_per_transfer <= self.packets_per_transfer * self.transfers)
            by (nonlinear_arith)
            requires
                0 <= index < self.transfers,
        ;
        let transfer_bytes: usize = self.packet_size * self.packets_per_transfer;
        TransferPlace {
            index,
            first_packet: index * self.packets_per_transfer,
            offset: index * transfer_bytes,
            bytes: transfer_bytes,
        }
    }

    /// The oldest transfer was dealt with and is queued again.
    pub fn advance(&mut self)
        requires
            old(self).wf(),
        ensures
            *final(self) == (TransferRing {
                next: ((old(self).next + 1) % old(self).transfers as int) as usize,
                ..*old(self)
            }),
            final(self).wf(),
    {
        self.next = if self.next + 1 < self.transfers {
            self.next + 1
        } else {
            0
        };
        proof {
            let next = old(self).next as int;
            let transfers = old(self).transfers as int;
            if next + 1 == transfers {
                assert((next + 1) % transfers == 0) by (nonlinear_arith)
                    requires
                        next + 1 == transfers,
                        transfers > 0,
                ;
            } else {
                assert((next + 1) % transfers == next + 1) by (nonlinear_arith)
                    requires
                        0 <= next + 1 < transfers,
                ;
            }
        }
    }
}

/// No two transfers of a ring share a byte.
pub proof fn law_transfers_do_not_overlap(ring: TransferRing, a: int, b: int)
    requires
        ring.wf(),
        0 <= a < b < ring.transfers,
    ensures
        ({
            let bytes = ring.packet_size * ring.packets_per_transfer;
            &&& a * bytes + bytes <= b * bytes
            &&& b * bytes + bytes <= bytes * ring.transfers
        }),
{
    let bytes = ring.packet_size * ring.packets_per_transfer;
    assert(a * bytes + bytes <= b * bytes && b * bytes + bytes <= bytes * ring.transfers)
        by (nonlinear_arith)
        requires
            0 <= a < b < ring.transfers,
            bytes >= 0,
    ;
}

/// What a capture counted.
#[derive(Debug)]
pub struct CaptureTotals {
    packets: u64,
    failed: u64,
    bytes: u64,
    lengths: BTreeMap<u32, u64>,
}

/// What a capture counted, as a value.
#[verifier::ext_equal]
pub struct TotalsView {
    pub packets: int,
    pub failed: int,
    pub bytes: int,
    /// How many packets there were of each length.
    pub lengths: Map<u32, u64>,
}

impl TotalsView {
    pub open spec fn zero() -> TotalsView {
        TotalsView { packets: 0, failed: 0, bytes: 0, lengths: Map::empty() }
    }

    pub open spec fn wf(self) -> bool {
        &&& 0 <= self.failed <= self.packets
        &&& 0 <= self.bytes
        &&& forall|length: u32|
            #[trigger] self.lengths.contains_key(length) ==> self.lengths[length] <= self.packets
    }

    /// The device sends empty packets until its converters are running.
    pub open spec fn skips(self, packet: IsoPacket) -> bool {
        self.bytes == 0 && packet.length == 0 && packet.status == 0
    }

    /// Whether the bytes of a packet belong to the capture.
    pub open spec fn takes(self, packet: IsoPacket) -> bool {
        !self.skips(packet) && packet.status == 0
    }

    /// One more packet was counted.
    pub open spec fn after_packet(self, packet: IsoPacket) -> TotalsView {
        if self.skips(packet) {
            self
        } else if packet.status != 0 {
            TotalsView { packets: self.packets + 1, failed: self.failed + 1, ..self }
        } else {
            let before = if self.lengths.contains_key(packet.length) {
                self.lengths[packet.length]
            } else {
                0
            };
            TotalsView {
                packets: self.packets + 1,
                bytes: self.bytes + packet.length,
                lengths: self.lengths.insert(packet.length, (before + 1) as u64),
                ..self
            }
        }
    }

    /// The packets of a transfer were counted.
    pub open spec fn after_packets(self, packets: Seq<IsoPacket>) -> TotalsView
        decreases packets.len(),
    {
        if packets.len() == 0 {
            self
        } else {
            self.after_packets(packets.drop_last()).after_packet(packets.last())
        }
    }

    /// Whether the packets of a transfer whose bytes belong to the capture lie
    /// within its data.
    pub open spec fn lie_within(self, packets: Seq<IsoPacket>, data: Seq<u8>) -> bool {
        forall|i: int|
            0 <= i < packets.len() && self.after_packets(packets.subrange(0, i)).takes(
                #[trigger] packets[i],
            ) ==> packets[i].offset + packets[i].length <= data.len()
    }

    /// The bytes of a transfer that belong to the capture.
    pub open spec fn taken(self, packets: Seq<IsoPacket>, data: Seq<u8>) -> Seq<u8>
        decreases packets.len(),
    {
        if packets.len() == 0 {
            seq![]
        } else {
            let packet = packets.last();
            let before = self.after_packets(packets.drop_last());
            self.taken(packets.drop_last(), data) + (if before.takes(packet) {
                data.subrange(packet.offset as int, packet.offset + packet.length)
            } else {
                seq![]
            })
        }
    }
}

impl View for CaptureTotals {
    type V = TotalsView;

    closed spec fn view(&self) -> TotalsView {
        TotalsView {
            packets: self.packets as int,
            failed: self.failed as int,
            bytes: self.bytes as int,
            lengths: self.lengths@,
        }
    }
}

impl CaptureTotals {
    pub fn new() -> (totals: CaptureTotals)
        ensures
            totals@ == TotalsView::zero(),
            totals@.wf(),
    {
        CaptureTotals { packets: 0, failed: 0, bytes: 0, lengths: BTreeMap::new() }
    }

    pub fn packets(&self) -> (packets: u64)
        ensures
            packets == self@.packets,
    {
        self.packets
    }

    pub fn failed(&self) -> (failed: u64)
        ensures
            failed == self@.failed,
    {
        self.failed
    }

    pub fn bytes(&self) -> (bytes: u64)
        ensures
            bytes == self@.bytes,
    {
        self.bytes
    }

    pub fn lengths(&self) -> (lengths: &BTreeMap<u32, u64>)
        ensures
            lengths@ == self@.lengths,
    {
        &self.lengths
    }

    /// Counts one packet; tells whether its bytes belong to the capture.
    fn add_packet(&mut self, packet: IsoPacket) -> (takes: bool)
        requires
            old(self)@.wf(),
            old(self)@.packets < u64::MAX,
            old(self)@.bytes + packet.length <= u64::MAX,
        ensures
            final(self)@ == old(self)@.after_packet(packet),
            final(self)@.wf(),
            takes == old(self)@.takes(packet),
    {
        if self.bytes == 0 && packet.length == 0 && packet.status == 0 {
            return false;
        }
        self.packets = self.packets + 1;
        if packet.status != 0 {
            self.failed = self.failed + 1;
            return false;
        }
        broadcast use vstd::std_specs::btree::group_btree_axioms;

        let before: u64 = match self.lengths.get(&packet.length) {
            Some(count) => *count,
            None => 0,
        };
        assert(before <= old(self)@.packets) by {
            if old(self)@.lengths.contains_key(packet.length) {
            }
        }
        self.lengths.insert(packet.length, before + 1);
        self.bytes = self.bytes + packet.length as u64;
        true
    }

    /// Counts the packets of a transfer and gives the bytes of `data` that
    /// belong to the capture, none where no data is given.
    pub fn add_transfer(&mut self, packets: &[IsoPacket], data: Option<&[u8]>) -> (taken: Vec<u8>)
        requires
            old(self)@.wf(),
            old(self)@.packets + packets.len() <= u64::MAX,
            old(self)@.bytes + packets.len() * u32::MAX <= u64::MAX,
            data matches Some(data) ==> old(self)@.lie_within(packets@, data@),
        ensures
            final(self)@ == old(self)@.after_packets(packets@),
            final(self)@.wf(),
            taken@ == match data {
                Some(data) => old(self)@.taken(packets@, data@),
                None => seq![],
            },
    {
        let ghost before = self@;
        let mut taken: Vec<u8> = Vec::new();
        let mut i: usize = 0;
        while i < packets.len()
            invariant
                i <= packets.len(),
                before == old(self)@,
                self@ == before.after_packets(packets@.subrange(0, i as int)),
                self@.wf(),
                self@.packets <= before.packets + i,
                self@.bytes <= before.bytes + i * u32::MAX,
                before.packets + packets.len() <= u64::MAX,
                before.bytes + packets.len() * u32::MAX <= u64::MAX,
                data matches Some(data) ==> before.lie_within(packets@, data@),
                taken@ == match data {
                    Some(data) => before.taken(packets@.subrange(0, i as int), data@),
                    None => seq![],
                },
            decreases packets.len() - i,
        {
            proof {
                assert(packets@.subrange(0, i + 1).drop_last() =~= packets@.subrange(0, i as int));
            }
            let packet: IsoPacket = packets[i];
            let takes = self.add_packet(packet);
            match data {
                Some(data) => {
                    if takes {
                        assert(before.after_packets(packets@.subrange(0, i as int)).takes(
                            packets@[i as int],
                        ));
                        assert(packet.offset + packet.length <= data.len());
                        let start: usize = packet.offset as usize;
                        let piece: &[u8] = slice_subrange(data, start, start + packet.length as usize);
                        taken.extend_from_slice(piece);
                    } else {
                        assert(taken@ + Seq::<u8>::empty() =~= taken@);
                    }
                },
                None => {},
            }
            i = i + 1;
        }
        assert(packets@.subrange(0, i as int) =~= packets@);
        taken
    }

    /// Bytes of one frame of all channels of a device.
    pub fn frame_bytes(spec: &DeviceSpec) -> (bytes: u64)
        ensures
            bytes == spec.wire_bytes_spec() * 2 * spec.streams_spec(),
    {
        let wire: u64 = spec.wire_bytes_per_sample() as u64;
        let streams: u64 = spec.streams() as u64;
        assert(wire * 2 * streams <= 8 * 256) by (nonlinear_arith)
            requires
                wire <= 4,
                streams <= 256,
        ;
        wire * CHANNELS_PER_STREAM as u64 * streams
    }

    /// What to say of a capture: the format, then the packets. Also gives how
    /// many whole frames came.
    pub fn report(&self, rate_hz: u32, max_packet: u16, frame_bytes: u64) -> (lines: (String, String, u64))
        requires
            frame_bytes > 0,
        ensures
            lines.0@ == "rate "@ + decimal_nat(rate_hz as int) + " Hz, max packet "@ + decimal_nat(
                max_packet as int,
            ) + " B, frame "@ + decimal_nat(frame_bytes as int) + " B"@,
            lines.1@ == "packets "@ + decimal_nat(self@.packets) + ", failed "@ + decimal_nat(
                self@.failed,
            ) + ", bytes "@ + decimal_nat(self@.bytes) + ", remainder "@ + decimal_nat(
                self@.bytes % (frame_bytes as int),
            ) + " B"@,
            lines.2 == self@.bytes / (frame_bytes as int),
    {
        let mut first: String = string_of("rate ");
        push_number(&mut first, rate_hz as u64);
        first.append(" Hz, max packet ");
        push_number(&mut first, max_packet as u64);
        first.append(" B, frame ");
        push_number(&mut first, frame_bytes);
        first.append(" B");
        let mut second: String = string_of("packets ");
        push_number(&mut second, self.packets);
        second.append(", failed ");
        push_number(&mut second, self.failed);
        second.append(", bytes ");
        push_number(&mut second, self.bytes);
        second.append(", remainder ");
        push_number(&mut second, self.bytes % frame_bytes);
        second.append(" B");
        (first, second, self.bytes / frame_bytes)
    }
}

/// Counting transfers one after the other is counting them as one.
pub proof fn law_transfers_add_up(totals: TotalsView, first: Seq<IsoPacket>, second: Seq<IsoPacket>)
    ensures
        totals.after_packets(first).after_packets(second) == totals.after_packets(first + second),
    decreases second.len(),
{
    if second.len() == 0 {
        assert(first + second =~= first);
    } else {
        law_transfers_add_up(totals, first, second.drop_last());
        assert((first + second).drop_last() =~= first + second.drop_last());
    }
}

/// An active endpoint. All endpoints of the device have the same name; the path
/// of the filter behind an endpoint, where it is known, tells them apart.
#[derive(Debug)]
pub struct Endpoint {
    pub id: String,
    pub name: String,
    pub path: Option<String>,
}

/// Whether an endpoint's identifier or name holds `needle`.
pub open spec fn endpoint_matches(endpoint: Endpoint, needle: Seq<char>) -> bool {
    holds(endpoint.id@, needle) || holds(endpoint.name@, needle)
}

/// What the device's endpoint for `slot` can be asked for as.
pub open spec fn slot_name(slot: Slot) -> Seq<char> {
    match slot {
        Slot::Output12 => "output12"@,
        Slot::Output34 => "output34"@,
        Slot::Input12 => "input12"@,
    }
}

/// Whether an endpoint is the device's that `needle` asks for.
pub open spec fn endpoint_is_slot(endpoint: Endpoint, needle: Seq<char>) -> bool {
    &&& endpoint.path matches Some(path)
    &&& endpoint_slot_spec(path@) matches Some(slot)
    &&& needle == slot_name(slot)
}

/// Whether `needle` finds an endpoint, as one of the device's or by its
/// identifier or name.
pub open spec fn finds(endpoint: Endpoint, needle: Seq<char>, by_slot: bool) -> bool {
    if by_slot {
        endpoint_is_slot(endpoint, needle)
    } else {
        endpoint_matches(endpoint, needle)
    }
}

fn is_found(endpoint: &Endpoint, needle: &str, by_slot: bool) -> (found: bool)
    ensures
        found == finds(*endpoint, needle@, by_slot),
{
    if by_slot {
        match &endpoint.path {
            Some(path) => match endpoint_slot(path.as_str()) {
                Some(Slot::Output12) => same_text(needle, "output12"),
                Some(Slot::Output34) => same_text(needle, "output34"),
                Some(Slot::Input12) => same_text(needle, "input12"),
                None => false,
            },
            None => false,
        }
    } else {
        let part: Vec<char> = chars_of(needle);
        let id: Vec<char> = chars_of(endpoint.id.as_str());
        let name: Vec<char> = chars_of(endpoint.name.as_str());
        chars_within(id.as_slice(), part.as_slice()) || chars_within(name.as_slice(), part.as_slice())
    }
}

/// How many endpoints `needle` finds.
pub open spec fn match_count(endpoints: Seq<Endpoint>, needle: Seq<char>, by_slot: bool) -> nat
    decreases endpoints.len(),
{
    if endpoints.len() == 0 {
        0
    } else {
        match_count(endpoints.drop_last(), needle, by_slot) + (if finds(
            endpoints.last(),
            needle,
            by_slot,
        ) {
            1nat
        } else {
            0
        })
    }
}

/// Whether `needle` is taken as the name of one of the device's endpoints: no
/// identifier or name holds it.
pub open spec fn asks_for_slot(endpoints: Seq<Endpoint>, needle: Seq<char>) -> bool {
    match_count(endpoints, needle, false) == 0
}

/// Why no endpoint was found.
#[derive(Clone, Copy, Debug, PartialEq, Eq, Structural)]
pub enum FindFault {
    NoMatch,
    /// That many match.
    Many(usize),
}

/// What to say where no single endpoint matches; `quoted` is what was looked
/// for.
pub fn find_failure(fault: FindFault, quoted: &str) -> (text: String)
    ensures
        text@ == match fault {
            FindFault::NoMatch => "no active endpoint matches "@ + quoted@,
            FindFault::Many(count) => decimal_nat(count as int) + " endpoints match "@ + quoted@
                + "; use more of the id"@,
        },
{
    match fault {
        FindFault::NoMatch => {
            let mut text: String = string_of("no active endpoint matches ");
            text.append(quoted);
            text
        },
        FindFault::Many(count) => {
            let mut text: String = String::new();
            push_number(&mut text, count as u64);
            text.append(" endpoints match ");
            text.append(quoted);
            text.append("; use more of the id");
            assert(text@ =~= decimal_nat(count as int) + " endpoints match "@ + quoted@
                + "; use more of the id"@);
            text
        },
    }
}

/// How many endpoints `needle` finds, and the last of them.
fn count_found(endpoints: &[Endpoint], needle: &str, by_slot: bool) -> (found: (usize, usize))
    ensures
        found.0 == match_count(endpoints@, needle@, by_slot),
        found.0 > 0 ==> found.1 < endpoints.len() && finds(
            endpoints@[found.1 as int],
            needle@,
            by_slot,
        ),
{
    let mut count: usize = 0;
    let mut last: usize = 0;
    let mut i: usize = 0;
    while i < endpoints.len()
        invariant
            i <= endpoints.len(),
            count <= i,
            count == match_count(endpoints@.subrange(0, i as int), needle@, by_slot),
            count > 0 ==> last < endpoints.len() && finds(endpoints@[last as int], needle@, by_slot),
        decreases endpoints.len() - i,
    {
        proof {
            assert(endpoints@.subrange(0, i + 1).drop_last() =~= endpoints@.subrange(0, i as int));
        }
        if is_found(&endpoints[i], needle, by_slot) {
            count = count + 1;
            last = i;
        }
        i = i + 1;
    }
    assert(endpoints@.subrange(0, i as int) =~= endpoints@);
    (count, last)
}

/// The one endpoint whose identifier or name holds `needle`; where none does,
/// the device's endpoint that `needle` names.
pub fn find(endpoints: &[Endpoint], needle: &str) -> (found: Result<usize, FindFault>)
    ensures
        ({
            let by_slot = asks_for_slot(endpoints@, needle@);
            let count = match_count(endpoints@, needle@, by_slot);
            match found {
                Ok(index) => {
                    &&& count == 1
                    &&& index < endpoints.len()
                    &&& finds(endpoints@[index as int], needle@, by_slot)
                },
                Err(FindFault::NoMatch) => count == 0,
                Err(FindFault::Many(many)) => many == count && count > 1,
            }
        }),
{
    let matching: (usize, usize) = count_found(endpoints, needle, false);
    let (count, last): (usize, usize) = if matching.0 == 0 {
        count_found(endpoints, needle, true)
    } else {
        matching
    };
    if count == 0 {
        Err(FindFault::NoMatch)
    } else if count == 1 {
        Ok(last)
    } else {
        Err(FindFault::Many(count))
    }
}

pub const WAVE_FORMAT_IEEE_FLOAT: u16 = 3;

pub const KSDATAFORMAT_SUBTYPE_IEEE_FLOAT: u128 = 0x00000003_0000_0010_8000_00aa00389b71;

/// Whether a mix format is 32-bit float; `sub_format` is that of an extensible
/// one.
pub fn is_float(format_tag: u16, bits_per_sample: u16, sub_format: u128) -> (float: bool)
    ensures
        float == (bits_per_sample == 32 && (format_tag == WAVE_FORMAT_IEEE_FLOAT || (format_tag
            == WAVE_FORMAT_EXTENSIBLE && sub_format == KSDATAFORMAT_SUBTYPE_IEEE_FLOAT))),
{
    let tagged = format_tag == WAVE_FORMAT_IEEE_FLOAT || (format_tag == WAVE_FORMAT_EXTENSIBLE
        && sub_format == KSDATAFORMAT_SUBTYPE_IEEE_FLOAT);
    tagged && bits_per_sample == 32
}

pub const SHARED_BUFFER_HNS: i64 = 1_000_000;

pub const EXCLUSIVE_BUFFER_HNS: i64 = 200_000;

/// How samples are kept in an endpoint's buffer.
#[derive(Clone, Copy, Debug, PartialEq, Eq, Structural)]
pub enum Sample {
    Float,
    /// 24 valid bits, left-justified in 32.
    Int32,
}

/// How an endpoint is opened: buffer and period in units of 100 ns.
#[derive(Clone, Copy, Debug, PartialEq, Eq, Structural)]
pub struct OpenPlan {
    pub exclusive: bool,
    pub buffer_hns: i64,
    pub period_hns: i64,
}

/// How an endpoint is opened, exclusively where a rate is given.
pub fn open_plan(exclusive_rate: Option<u32>) -> (plan: OpenPlan)
    ensures
        plan == match exclusive_rate {
            None => OpenPlan { exclusive: false, buffer_hns: 1_000_000, period_hns: 0 },
            Some(_) => OpenPlan { exclusive: true, buffer_hns: 200_000, period_hns: 100_000 },
        },
{
    match exclusive_rate {
        None => OpenPlan { exclusive: false, buffer_hns: SHARED_BUFFER_HNS, period_hns: 0 },
        Some(_) => OpenPlan {
            exclusive: true,
            buffer_hns: EXCLUSIVE_BUFFER_HNS,
            period_hns: EXCLUSIVE_BUFFER_HNS / 2,
        },
    }
}

/// What an open endpoint takes or gives.
#[derive(Clone, Copy, Debug, PartialEq, Eq, Structural)]
pub struct Opened {
    pub rate: u32,
    pub channels: u32,
    pub sample: Sample,
}

pub const NOT_FLOAT: &'static str = "mix format is not 32-bit float";

/// What an endpoint takes or gives once it is open: shared, what its mix
/// format says, which has to be float; exclusively, what was asked for.
pub fn opened(exclusive_rate: Option<u32>, mix_rate: u32, mix_channels: u16, float: bool) -> (opened:
    Result<Opened, &'static str>)
    ensures
        match exclusive_rate {
            Some(rate) => opened == Ok::<Opened, &'static str>(
                Opened { rate, channels: 2, sample: Sample::Int32 },
            ),
            None => if float {
                opened == Ok::<Opened, &'static str>(
                    Opened { rate: mix_rate, channels: mix_channels as u32, sample: Sample::Float },
                )
            } else {
                opened matches Err(message) && message@ == NOT_FLOAT@
            },
        },
{
    match exclusive_rate {
        Some(rate) => Ok(Opened { rate, channels: 2, sample: Sample::Int32 }),
        None => if float {
            Ok(Opened { rate: mix_rate, channels: mix_channels as u32, sample: Sample::Float })
        } else {
            Err(NOT_FLOAT)
        },
    }
}

/// When a playing endpoint's clock is reported.
#[derive(Clone, Copy, Debug)]
pub struct PlayClock {
    /// Position and time, in nanoseconds since the start, of the first move.
    pub first: Option<(u64, u64)>,
    /// The second of the last report.
    pub last_report: u64,
}

/// How far a clock came in how many nanoseconds.
#[derive(Clone, Copy, Debug, PartialEq, Eq, Structural)]
pub struct ClockReport {
    pub second: u64,
    pub positions: u64,
    pub nanoseconds: u64,
}

impl PlayClock {
    pub open spec fn seen(self, position: u64, now: u64) -> PlayClock {
        if position > 0 && self.first is None {
            PlayClock { first: Some((position, now)), ..self }
        } else {
            self
        }
    }

    /// Whether a report is due: once a second, and not in the first one.
    pub open spec fn is_due(self, now: u64) -> bool {
        self.first matches Some(first) && now / 1_000_000_000 > self.last_report && now - first.1
            > 1_000_000_000
    }

    pub fn new() -> (clock: PlayClock)
        ensures
            clock == (PlayClock { first: None, last_report: 0 }),
    {
        PlayClock { first: None, last_report: 0 }
    }

    /// The endpoint's clock is at `position` after `now` nanoseconds.
    pub fn update(&mut self, position: u64, now: u64) -> (report: Option<ClockReport>)
        requires
            old(self).first matches Some(first) ==> first.0 <= position && first.1 <= now,
        ensures
            ({
                let seen = old(self).seen(position, now);
                if seen.is_due(now) {
                    &&& report == Some(
                        ClockReport {
                            second: now / 1_000_000_000,
                            positions: (position - (seen.first->0).0) as u64,
                            nanoseconds: (now - (seen.first->0).1) as u64,
                        },
                    )
                    &&& *final(self) == (PlayClock { last_report: now / 1_000_000_000, ..seen })
                } else {
                    report is None && *final(self) == seen
                }
            }),
    {
        if position > 0 && self.first.is_none() {
            self.first = Some((position, now));
        }
        let second: u64 = now / 1_000_000_000;
        match self.first {
            Some((start, began)) => {
                if second > self.last_report && now - began > 1_000_000_000 {
                    self.last_report = second;
                    return Some(
                        ClockReport {
                            second,
                            positions: position - start,
                            nanoseconds: now - began,
                        },
                    );
                }
            },
            None => {},
        }
        None
    }
}

/// What a recording counted.
#[derive(Clone, Copy, Debug, PartialEq, Eq, Structural)]
pub struct RecordTotals {
    pub frames: u64,
    pub discontinuities: u32,
}

impl RecordTotals {
    pub fn new() -> (totals: RecordTotals)
        ensures
            totals == (RecordTotals { frames: 0, discontinuities: 0 }),
    {
        RecordTotals { frames: 0, discontinuities: 0 }
    }

    /// A packet of `count` frames came with `flags`, the lowest of which says
    /// that frames are missing before it.
    pub fn add_packet(&mut self, count: u32, flags: u32)
        requires
            old(self).frames + count <= u64::MAX,
            old(self).discontinuities < u32::MAX,
        ensures
            final(self).frames == old(self).frames + count,
            final(self).discontinuities == old(self).discontinuities + flags % 2,
    {
        if flags % 2 == 1 {
            self.discontinuities = self.discontinuities + 1;
        }
        self.frames = self.frames + count as u64;
    }
}

/// Each command is known by its word and takes its own number of arguments
/// behind it; nothing else is a command.
pub proof fn law_commands_take_their_arguments(args: Seq<String>)
    requires
        args.len() > 0,
    ensures
        ({
            let behind = args.len() - 1;
            let found = command_spec(args);
            &&& found == Some(Command::Info) <==> args[0]@ == "info"@ && behind == 0
            &&& found == Some(Command::Capture) <==> args[0]@ == "capture"@ && (behind == 2 || behind
                == 3)
            &&& found == Some(Command::Endpoints) <==> args[0]@ == "endpoints"@ && behind == 0
            &&& found == Some(Command::Identify) <==> args[0]@ == "identify"@ && behind == 1
            &&& found == Some(Command::Play) <==> args[0]@ == "play"@ && (behind == 3 || behind == 4)
            &&& found == Some(Command::Record) <==> args[0]@ == "record"@ && (behind == 2 || behind
                == 3)
            &&& command_spec(Seq::empty()) is None
        }),
{
    reveal_strlit("info");
    reveal_strlit("capture");
    reveal_strlit("endpoints");
    reveal_strlit("identify");
    reveal_strlit("play");
    reveal_strlit("record");
    let name = args[0]@;
    assert("info"@[0] == 'i' && "info"@.len() == 4);
    assert("capture"@.len() == 7 && "endpoints"@.len() == 9 && "identify"@.len() == 8);
    assert("play"@[0] == 'p' && "play"@.len() == 4 && "record"@.len() == 6);
}

/// A path ends at the first NUL of the list.
pub proof fn law_first_nul_is_found(list: Seq<u16>, from: int, at: int)
    requires
        0 <= from <= at <= list.len(),
        forall|k: int| from <= k < at ==> #[trigger] list[k] != 0,
    ensures
        at < list.len() && list[at] == 0 ==> nul_at(list, from) == Some(at),
        at == list.len() ==> nul_at(list, from) is None,
    decreases list.len() - from,
{
    if from < at {
        assert(list[from] != 0);
        law_first_nul_is_found(list, from + 1, at);
    }
}

/// Empty packets before the first bytes are not counted. Every other packet is,
/// as a failed one or with its bytes and among those of its length.
pub proof fn law_packets_are_counted_by_length(totals: TotalsView, packet: IsoPacket, length: u32)
    requires
        totals.wf(),
        totals.packets < u64::MAX,
    ensures
        ({
            let after = totals.after_packet(packet);
            let early = totals.bytes == 0 && packet.length == 0 && packet.status == 0;
            &&& early ==> after == totals
            &&& !early ==> after.packets == totals.packets + 1
            &&& !early && packet.status != 0 ==> after.failed == totals.failed + 1 && after.bytes
                == totals.bytes && after.lengths == totals.lengths
            &&& !early && packet.status == 0 ==> {
                &&& after.failed == totals.failed
                &&& after.bytes == totals.bytes + packet.length
                &&& after.lengths.contains_key(packet.length)
                &&& totals.lengths.contains_key(packet.length) ==> after.lengths[packet.length]
                    == totals.lengths[packet.length] + 1
                &&& !totals.lengths.contains_key(packet.length) ==> after.lengths[packet.length] == 1
                &&& length != packet.length ==> (after.lengths.contains_key(length)
                    <==> totals.lengths.contains_key(length)) && after.lengths[length]
                    == totals.lengths[length]
            }
            &&& totals.takes(packet) <==> !early && packet.status == 0
        }),
{
}

/// The bytes that are taken of a transfer are those of its packets that came
/// through, one after the other, and as many as are counted.
pub proof fn law_taken_bytes_are_those_counted(
    totals: TotalsView,
    packets: Seq<IsoPacket>,
    packet: IsoPacket,
    data: Seq<u8>,
)
    requires
        totals.lie_within(packets.push(packet), data),
    ensures
        totals.taken(packets, data).len() == totals.after_packets(packets).bytes - totals.bytes,
        packet.status == 0 && packet.length > 0 ==> totals.taken(packets.push(packet), data)
            == totals.taken(
            packets,
            data,
        ) + data.subrange(packet.offset as int, packet.offset + packet.length),
        packet.status != 0 || packet.length == 0 ==> totals.taken(packets.push(packet), data)
            == totals.taken(
            packets,
            data,
        ),
        totals.taken(Seq::empty(), data) == Seq::<u8>::empty(),
        totals.after_packets(packets.push(packet)) == totals.after_packets(packets).after_packet(
            packet,
        ),
    decreases packets.len(),
{
    let longer = packets.push(packet);
    let before = totals.after_packets(packets);
    assert(longer.drop_last() =~= packets);
    assert(longer.subrange(0, packets.len() as int) =~= packets);
    if before.takes(packet) {
        assert(longer[packets.len() as int] == packet);
        if packet.length == 0 {
            assert(data.subrange(packet.offset as int, packet.offset + packet.length)
                =~= Seq::<u8>::empty());
        }
    }
    assert(totals.taken(packets, data) + Seq::<u8>::empty() =~= totals.taken(packets, data));
    if packets.len() > 0 {
        let shorter = packets.drop_last();
        let last = packets.last();
        assert(shorter.push(last) =~= packets);
        assert forall|i: int|
            0 <= i < packets.len() && totals.after_packets(packets.subrange(0, i)).takes(
                #[trigger] packets[i],
            ) implies packets[i].offset + packets[i].length <= data.len() by {
            assert(longer[i] == packets[i]);
            assert(longer.subrange(0, i) =~= packets.subrange(0, i));
        }
        law_taken_bytes_are_those_counted(totals, shorter, last, data);
        if totals.after_packets(shorter).takes(last) {
            assert(packets[packets.len() - 1] == last);
            assert(packets.subrange(0, packets.len() - 1) =~= shorter);
        }
    }
}

/// An endpoint is found by a part of its identifier or of its name, or, where it
/// is one of the device's, by the name of its circuit in small letters.
pub proof fn law_endpoints_are_found_by_part_or_circuit(
    endpoint: Endpoint,
    needle: Seq<char>,
    at: int,
)
    ensures
        holds_at(endpoint.id@, at, needle) || holds_at(endpoint.name@, at, needle) ==> finds(
            endpoint,
            needle,
            false,
        ),
        finds(endpoint, needle, false) ==> holds(endpoint.id@, needle) || holds(
            endpoint.name@,
            needle,
        ),
        endpoint.path is None ==> !finds(endpoint, needle, true),
        endpoint.path matches Some(path) ==> {
            &&& endpoint_slot_spec(path@) == Some(Slot::Output12) ==> (finds(endpoint, needle, true)
                <==> needle == "output12"@)
            &&& endpoint_slot_spec(path@) == Some(Slot::Output34) ==> (finds(endpoint, needle, true)
                <==> needle == "output34"@)
            &&& endpoint_slot_spec(path@) == Some(Slot::Input12) ==> (finds(endpoint, needle, true)
                <==> needle == "input12"@)
            &&& endpoint_slot_spec(path@) is None ==> !finds(endpoint, needle, true)
        },
{
}

/// Endpoints are counted one by one, so that none is counted where none is found
/// and one where a single one is.
pub proof fn law_found_endpoints_are_counted(
    endpoints: Seq<Endpoint>,
    needle: Seq<char>,
    by_slot: bool,
    only: int,
)
    ensures
        match_count(endpoints, needle, by_slot) <= endpoints.len(),
        (forall|i: int| 0 <= i < endpoints.len() ==> !finds(#[trigger] endpoints[i], needle, by_slot))
            <==> match_count(endpoints, needle, by_slot) == 0,
        0 <= only < endpoints.len() && finds(endpoints[only], needle, by_slot) && (forall|i: int|
            0 <= i < endpoints.len() && i != only ==> !finds(
                #[trigger] endpoints[i],
                needle,
                by_slot,
            )) ==> match_count(endpoints, needle, by_slot) == 1,
    decreases endpoints.len(),
{
    if endpoints.len() > 0 {
        let before = endpoints.drop_last();
        let last = endpoints.len() - 1;
        law_found_endpoints_are_counted(before, needle, by_slot, only);
        assert forall|i: int| 0 <= i < before.len() implies #[trigger] before[i] == endpoints[i] by {}
        if forall|i: int|
            0 <= i < endpoints.len() ==> !finds(#[trigger] endpoints[i], needle, by_slot) {
            assert(!finds(endpoints[last], needle, by_slot));
            assert forall|i: int| 0 <= i < before.len() implies !finds(
                #[trigger] before[i],
                needle,
                by_slot,
            ) by {
                assert(!finds(endpoints[i], needle, by_slot));
            }
        }
        if match_count(endpoints, needle, by_slot) == 0 {
            assert forall|i: int| 0 <= i < endpoints.len() implies !finds(
                #[trigger] endpoints[i],
                needle,
                by_slot,
            ) by {
                if i < last {
                    assert(!finds(before[i], needle, by_slot));
                }
            }
        }
        if 0 <= only < endpoints.len() && finds(endpoints[only], needle, by_slot) && (forall|i: int|
            0 <= i < endpoints.len() && i != only ==> !finds(
                #[trigger] endpoints[i],
                needle,
                by_slot,
            )) {
            assert forall|i: int| 0 <= i < before.len() && i != only implies !finds(
                #[trigger] before[i],
                needle,
                by_slot,
            ) by {
                assert(!finds(endpoints[i], needle, by_slot));
            }
            if only < last {
                assert(before[only] == endpoints[only]);
                assert(!finds(endpoints[last], needle, by_slot));
            }
        }
    }
}

/// A clock is measured from its first move on and reported once in every second
/// but the first after that move.
pub proof fn law_clocks_are_reported_by_the_second(clock: PlayClock, position: u64, now: u64)
    ensures
        clock.first is Some ==> clock.seen(position, now) == clock,
        clock.first is None && position == 0 ==> clock.seen(position, now) == clock,
        clock.first is None && position > 0 ==> clock.seen(position, now).first == Some(
            (position, now),
        ),
        clock.seen(position, now).last_report == clock.last_report,
        clock.first is None ==> !clock.is_due(now),
        clock.first matches Some(first) ==> (clock.is_due(now) <==> now >= first.1 + 1_000_000_001
            && now >= (clock.last_report + 1) * 1_000_000_000),
{
}

/// The transfers of a ring come round one after the other, the first after the
/// last.
pub proof fn law_transfers_come_round()
    ensures
        forall|ring: &mut TransferRing| #[trigger]
            call_ensures(TransferRing::advance, (ring,), ()) && ring.wf() ==> {
                let after = *final(ring);
                &&& ring.next + 1 < ring.transfers ==> after.next == ring.next + 1
                &&& ring.next + 1 == ring.transfers ==> after.next == 0
                &&& after.transfers == ring.transfers
                &&& after.packet_size == ring.packet_size
                &&& after.packets_per_transfer == ring.packets_per_transfer
            },
{
    assert forall|ring: &mut TransferRing| #[trigger]
        call_ensures(TransferRing::advance, (ring,), ()) && ring.wf() implies ({
        let after = *final(ring);
        &&& ring.next + 1 < ring.transfers ==> after.next == ring.next + 1
        &&& ring.next + 1 == ring.transfers ==> after.next == 0
    }) by {
        let next = ring.next as int;
        let transfers = ring.transfers as int;
        if next + 1 == transfers {
            assert((next + 1) % transfers == 0) by (nonlinear_arith)
                requires
                    next + 1 == transfers,
                    transfers > 0,
            ;
        } else {
            assert((next + 1) % transfers == next + 1) by (nonlinear_arith)
                requires
                    0 <= next + 1 < transfers,
            ;
        }
    }
}

/// A clock's report has the second it is made in and how far the clock came since
/// its first move.
pub proof fn law_reports_measure_from_the_first_move(
    position: u64,
    now: u64,
    report: Option<ClockReport>,
)
    ensures
        forall|clock: &mut PlayClock| #[trigger]
            call_ensures(PlayClock::update, (clock, position, now), report) && (
            clock.first matches Some(first) ==> first.0 <= position && first.1 <= now) ==> {
                let after = *final(clock);
                &&& report matches Some(told) ==> (clock.first matches Some(first)
                    && first.0 + told.positions == position && first.1 + told.nanoseconds == now
                    && told.second == now as int / 1_000_000_000 && after.last_report
                    == told.second)
                &&& report is None ==> after.last_report == clock.last_report
                &&& clock.first is Some ==> after.first == clock.first
                &&& clock.first is None ==> report is None
            },
{
}

/// Counting begins with nothing.
pub proof fn law_captures_begin_empty(length: u32)
    ensures
        TotalsView::zero().packets == 0,
        TotalsView::zero().failed == 0,
        TotalsView::zero().bytes == 0,
        !TotalsView::zero().lengths.contains_key(length),
{
}

/// The name of a circuit is asked for only where no identifier and no name of an
/// endpoint has it as a part.
pub proof fn law_parts_come_before_circuits(endpoints: Seq<Endpoint>, needle: Seq<char>)
    ensures
        asks_for_slot(endpoints, needle) <==> forall|i: int|
            0 <= i < endpoints.len() ==> !holds((#[trigger] endpoints[i]).id@, needle) && !holds(
                endpoints[i].name@,
                needle,
            ),
{
    law_found_endpoints_are_counted(endpoints, needle, false, 0);
    if asks_for_slot(endpoints, needle) {
        assert forall|i: int| 0 <= i < endpoints.len() implies !holds(
            (#[trigger] endpoints[i]).id@,
            needle,
        ) && !holds(endpoints[i].name@, needle) by {
            assert(!finds(endpoints[i], needle, false));
        }
    }
    if forall|i: int|
        0 <= i < endpoints.len() ==> !holds((#[trigger] endpoints[i]).id@, needle) && !holds(
            endpoints[i].name@,
            needle,
        ) {
        assert forall|i: int| 0 <= i < endpoints.len() implies !finds(
            #[trigger] endpoints[i],
            needle,
            false,
        ) by {
            assert(!holds(endpoints[i].id@, needle));
        }
    }
}

} // verus!
