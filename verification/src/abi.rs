//! Binary interface of an ASIO 2 driver object as hosts see it on 64-bit
//! Windows: the codes and the plain structs exchanged through it.

use vstd::prelude::*;
use vstd::utf8::encode_utf8;

verus! {

pub type AsioBool = i32;

pub type AsioError = i32;

pub const ASE_OK: AsioError = 0;

pub const ASE_SUCCESS: AsioError = 0x3f48_47a0;

pub const ASE_NOT_PRESENT: AsioError = -1000;

pub const ASE_HW_MALFUNCTION: AsioError = -999;

pub const ASE_INVALID_PARAMETER: AsioError = -998;

pub const ASE_INVALID_MODE: AsioError = -997;

pub const ASE_NO_CLOCK: AsioError = -995;

pub const ASE_NO_MEMORY: AsioError = -994;

pub const ASIO_ST_INT32_LSB: i32 = 18;

pub const K_ASIO_SELECTOR_SUPPORTED: i32 = 1;

pub const K_ASIO_ENGINE_VERSION: i32 = 2;

pub const K_ASIO_RESET_REQUEST: i32 = 3;

pub const K_ASIO_SUPPORTS_TIME_INFO: i32 = 7;

pub const K_ASIO_CAN_TIME_INFO: i32 = 0x2311_1961;

pub const K_SYSTEM_TIME_VALID: u32 = 1;

pub const K_SAMPLE_POSITION_VALID: u32 = 2;

pub const K_SAMPLE_RATE_VALID: u32 = 4;

/// A 64-bit count split into words, high word first (`ASIOSamples` and
/// `ASIOTimeStamp` without `NATIVE_INT64`).
#[derive(Clone, Copy, Default, Debug, PartialEq, Eq, Structural)]
pub struct AsioU64 {
    pub hi: u32,
    pub lo: u32,
}

/// The words of a count.
pub open spec fn split(value: u64) -> AsioU64 {
    AsioU64 { hi: (value / 4294967296) as u32, lo: (value % 4294967296) as u32 }
}

/// The count that two words make.
pub open spec fn joined(value: AsioU64) -> u64 {
    (value.hi * 4294967296 + value.lo) as u64
}

impl From<u64> for AsioU64 {
    fn from(value: u64) -> (split: AsioU64) {
        AsioU64 { hi: (value / 4294967296) as u32, lo: (value % 4294967296) as u32 }
    }
}

impl vstd::std_specs::convert::FromSpecImpl<u64> for AsioU64 {
    open spec fn obeys_from_spec() -> bool {
        true
    }

    open spec fn from_spec(value: u64) -> AsioU64 {
        split(value)
    }
}

impl From<AsioU64> for u64 {
    fn from(value: AsioU64) -> (joined: u64) {
        value.hi as u64 * 4294967296 + value.lo as u64
    }
}

impl vstd::std_specs::convert::FromSpecImpl<AsioU64> for u64 {
    open spec fn obeys_from_spec() -> bool {
        true
    }

    open spec fn from_spec(value: AsioU64) -> u64 {
        joined(value)
    }
}

/// Splitting a count loses nothing.
pub proof fn law_split_counts_join(value: u64)
    ensures
        joined(split(value)) == value,
{
}

/// Every pair of words is a count.
pub proof fn law_joined_words_split(value: AsioU64)
    ensures
        split(joined(value)) == value,
{
}

#[derive(Clone, Copy, Debug)]
pub struct AsioClockSource {
    pub index: i32,
    pub associated_channel: i32,
    pub associated_group: i32,
    pub is_current_source: AsioBool,
    pub name: [u8; 32],
}

#[derive(Clone, Copy, Debug)]
pub struct AsioChannelInfo {
    pub channel: i32,
    pub is_input: AsioBool,
    pub is_active: AsioBool,
    pub channel_group: i32,
    pub sample_type: i32,
    pub name: [u8; 32],
}

/// A channel that a host wants buffers for.
#[derive(Clone, Copy, Debug, PartialEq, Eq, Structural)]
pub struct AsioBufferInfo {
    pub is_input: AsioBool,
    pub channel_num: i32,
}

/// `memory` with `text` in it as a NUL-terminated C string, cut to fit.
pub open spec fn c_string(memory: Seq<u8>, text: Seq<u8>) -> Seq<u8> {
    let len = if text.len() < memory.len() {
        text.len() as int
    } else {
        memory.len() - 1
    };
    Seq::new(
        memory.len(),
        |i: int|
            if i < len {
                text[i]
            } else if i == len {
                0u8
            } else {
                memory[i]
            },
    )
}

/// Copies `text` into a host-provided, NUL-terminated C string.
pub fn write_c_string(out: &mut [u8], text: &str)
    requires
        old(out).len() > 0,
    ensures
        final(out)@ == c_string(old(out)@, encode_utf8(text@)),
{
    let bytes: &[u8] = text.as_bytes();
    let len: usize = if bytes.len() < out.len() {
        bytes.len()
    } else {
        out.len() - 1
    };
    let ghost before = out@;
    let mut i: usize = 0;
    while i < len
        invariant
            i <= len,
            len < out.len(),
            len <= bytes.len(),
            out.len() == before.len(),
            forall|k: int| 0 <= k < i ==> out[k] == bytes[k],
            forall|k: int| i <= k < before.len() ==> out[k] == before[k],
        decreases len - i,
    {
        out[i] = bytes[i];
        i = i + 1;
    }
    out[len] = 0;
    assert(out@ =~= c_string(before, encode_utf8(text@)));
}

/// What stands before the first NUL of `memory`, or all of it.
pub open spec fn until_nul(memory: Seq<u8>) -> Seq<u8>
    decreases memory.len(),
{
    if memory.len() == 0 || memory[0] == 0 {
        seq![]
    } else {
        seq![memory[0]] + until_nul(memory.skip(1))
    }
}

/// Text without a NUL that fits is read back as it was written.
pub proof fn law_c_strings_read_back(memory: Seq<u8>, text: Seq<u8>)
    requires
        text.len() < memory.len(),
        !text.contains(0u8),
    ensures
        until_nul(c_string(memory, text)) == text,
    decreases text.len(),
{
    let written = c_string(memory, text);
    if text.len() == 0 {
        assert(until_nul(written) =~= text);
    } else {
        assert(text.contains(text[0]));
        let rest = text.skip(1);
        assert(!rest.contains(0u8)) by {
            if rest.contains(0u8) {
                let i = choose|i: int| 0 <= i < rest.len() && rest[i] == 0u8;
                assert(text[i + 1] == 0u8);
            }
        }
        law_c_strings_read_back(memory.skip(1), rest);
        assert(written.skip(1) =~= c_string(memory.skip(1), rest));
        assert(seq![text[0]] + rest =~= text);
    }
}

/// The bytes of a C string.
pub fn c_str(memory: &[u8]) -> (text: Vec<u8>)
    ensures
        text@ == until_nul(memory@),
{
    let mut text: Vec<u8> = Vec::new();
    let mut i: usize = 0;
    assert(memory@.skip(0) =~= memory@);
    assert(text@ + until_nul(memory@) =~= until_nul(memory@));
    while i < memory.len() && memory[i] != 0
        invariant
            i <= memory.len(),
            text@ + until_nul(memory@.skip(i as int)) == until_nul(memory@),
        decreases memory.len() - i,
    {
        proof {
            assert(memory@.skip(i as int).skip(1) =~= memory@.skip(i + 1));
        }
        let ghost before = text@;
        text.push(memory[i]);
        proof {
            let rest = until_nul(memory@.skip(i + 1));
            assert(before + (seq![memory[i as int]] + rest) =~= text@ + rest);
        }
        i = i + 1;
    }
    assert(text@ + Seq::<u8>::empty() =~= text@);
    text
}

/// Of a count the high word comes with its weight of 2^32.
pub proof fn law_words_weigh_as_they_stand(value: u64, words: AsioU64)
    ensures
        split(value).hi * 4294967296 + split(value).lo == value,
        joined(words) == words.hi * 4294967296 + words.lo,
{
}

/// Text is written from the beginning, as much of it as leaves room for a NUL
/// behind it, and what is behind the NUL stays.
pub proof fn law_c_strings_end_in_nul(memory: Seq<u8>, text: Seq<u8>, i: int)
    requires
        memory.len() > 0,
        0 <= i < memory.len(),
    ensures
        c_string(memory, text).len() == memory.len(),
        i < text.len() && i < memory.len() - 1 ==> c_string(memory, text)[i] == text[i],
        i == text.len() ==> c_string(memory, text)[i] == 0,
        i > text.len() ==> c_string(memory, text)[i] == memory[i],
        text.len() >= memory.len() ==> c_string(memory, text)[memory.len() - 1] == 0,
{
}

/// A C string is what stands before the first NUL.
pub proof fn law_c_strings_stop_at_nul(memory: Seq<u8>)
    ensures
        until_nul(memory).len() <= memory.len(),
        until_nul(memory) == memory.subrange(0, until_nul(memory).len() as int),
        forall|i: int| 0 <= i < until_nul(memory).len() ==> #[trigger] until_nul(memory)[i] != 0,
        until_nul(memory).len() < memory.len() ==> memory[until_nul(memory).len() as int] == 0,
    decreases memory.len(),
{
    let text = until_nul(memory);
    if memory.len() == 0 || memory[0] == 0 {
        assert(text =~= memory.subrange(0, 0));
    } else {
        let rest = memory.skip(1);
        law_c_strings_stop_at_nul(rest);
        assert(text =~= memory.subrange(0, text.len() as int)) by {
            assert forall|i: int| 0 <= i < text.len() implies text[i] == memory[i] by {
                if i > 0 {
                    assert(until_nul(rest)[i - 1] == rest.subrange(
                        0,
                        until_nul(rest).len() as int,
                    )[i - 1]);
                }
            }
        }
        assert forall|i: int| 0 <= i < text.len() implies #[trigger] text[i] != 0 by {
            if i > 0 {
                assert(text[i] == until_nul(rest)[i - 1]);
            }
        }
    }
}

/// The codes that hosts know.
pub proof fn law_codes_that_hosts_know()
    ensures
        ASE_OK == 0,
        ASE_SUCCESS == 0x3f48_47a0,
        ASE_NOT_PRESENT == -1000,
        ASE_HW_MALFUNCTION == -999,
        ASE_INVALID_PARAMETER == -998,
        ASE_INVALID_MODE == -997,
        ASE_NO_CLOCK == -995,
        ASE_NO_MEMORY == -994,
        ASIO_ST_INT32_LSB == 18,
{
}

} // verus!
