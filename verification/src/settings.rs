//! Per-user ASIO settings, written by the control panel and used for hosts
//! that do not choose a sample rate or buffer size themselves.

use vstd::prelude::*;

use crate::com::HResult;

verus! {

pub const RATES: [u32; 5] = [44_100, 48_000, 88_200, 96_000, 192_000];

/// Buffer sizes offered to hosts, as multiples of the smallest one.
pub const BUFFER_MULTIPLES: [u32; 4] = [1, 2, 4, 8];

/// Audio the kernel driver moves per USB transfer, which bounds the smallest buffer.
pub const TRANSFER_MS: u32 = 4;

/// The key of the settings under the user's registry root.
pub const KEY: &'static str = "Software\\Audio Kontrol 1\\ASIO";

pub const SAMPLE_RATE_VALUE: &'static str = "SampleRate";

pub const BUFFER_MULTIPLE_VALUE: &'static str = "BufferMultiple";

#[derive(Clone, Copy, Debug, PartialEq, Eq, Structural)]
pub struct Settings {
    pub sample_rate: u32,
    pub buffer_multiple: u32,
}

/// A number to keep under a name.
#[derive(Clone, Copy, Debug, PartialEq, Eq)]
pub struct StoredValue {
    pub name: &'static str,
    pub value: u32,
}

/// What saving does next.
#[derive(Clone, Copy, Debug, PartialEq, Eq)]
pub enum SaveStep {
    /// Writes a number.
    Write(StoredValue),
    Saved,
    /// A number could not be written.
    Failed(HResult),
}

/// The numbers that are kept.
pub struct Store {
    pub sample_rate: Option<u32>,
    pub buffer_multiple: Option<u32>,
}

impl Store {
    /// A write of `value` with the given result: one that failed keeps what
    /// was there.
    pub open spec fn after_write(self, value: StoredValue, result: Result<(), HResult>) -> Store {
        if result is Err {
            self
        } else if value.name@ == SAMPLE_RATE_VALUE@ {
            Store { sample_rate: Some(value.value), ..self }
        } else if value.name@ == BUFFER_MULTIPLE_VALUE@ {
            Store { buffer_multiple: Some(value.value), ..self }
        } else {
            self
        }
    }

    /// The settings that the kept numbers give.
    pub open spec fn loaded(self) -> Settings {
        Settings::load_spec(self.sample_rate, self.buffer_multiple)
    }
}

pub open spec fn is_offered_rate(rate: int) -> bool {
    rate == 44_100 || rate == 48_000 || rate == 88_200 || rate == 96_000 || rate == 192_000
}

pub open spec fn is_offered_multiple(multiple: int) -> bool {
    multiple == 1 || multiple == 2 || multiple == 4 || multiple == 8
}

/// Whether `n` is one of 1, 2, 4, 8, ...
pub open spec fn is_power_of_two(n: int) -> bool
    decreases n,
{
    n == 1 || (n > 1 && n % 2 == 0 && is_power_of_two(n / 2))
}

/// The least power of two that is not below `n`.
pub open spec fn next_power(n: int) -> int
    decreases n,
{
    if n <= 1 {
        1
    } else {
        2 * next_power((n + 1) / 2)
    }
}

/// `a / b`, rounded up.
pub open spec fn div_ceil_spec(a: int, b: int) -> int {
    (a + b - 1) / b
}

/// A USB transfer and an eighth of it, in frames, rounded up.
pub open spec fn transfer_frames(rate: int) -> int {
    div_ceil_spec(rate * 4 * 9 / 8, 1000)
}

pub open spec fn min_buffer_frames_spec(rate: int) -> int {
    next_power(transfer_frames(rate))
}

/// The arithmetic of buffer sizes stays within 32 bits up to here.
pub open spec fn is_measurable_rate(rate: int) -> bool {
    0 <= rate && rate * 36 <= u32::MAX
}

/// Only one power of two is not below `n` and has its half below `n`.
proof fn lemma_next_power_unique(n: int, p: int)
    requires
        is_power_of_two(p),
        p >= n,
        p == 1 || p < 2 * n,
    ensures
        p == next_power(n),
    decreases p,
{
    if n > 1 {
        lemma_next_power_unique((n + 1) / 2, p / 2);
    }
}

/// The next power of two of `n` is a power of two, not below `n`, and less
/// than twice `n` unless it is 1.
pub proof fn law_next_power_is_least(n: int)
    ensures
        is_power_of_two(next_power(n)),
        next_power(n) >= n,
        next_power(n) == 1 || next_power(n) < 2 * n,
    decreases n,
{
    if n > 1 {
        law_next_power_is_least((n + 1) / 2);
    }
}

/// Every power of two that is not below `n` is at least the next power of two.
pub proof fn law_next_power_is_lower_bound(n: int, p: int)
    requires
        is_power_of_two(p),
        p >= n,
    ensures
        p >= next_power(n),
    decreases p,
{
    if n > 1 {
        law_next_power_is_lower_bound((n + 1) / 2, p / 2);
    }
}

fn next_power_of_two(n: u32) -> (p: u32)
    requires
        n <= 0x8000_0000,
    ensures
        p == next_power(n as int),
{
    let mut p: u32 = 1;
    while p < n
        invariant
            is_power_of_two(p as int),
            p == 1 || p < 2 * n,
            p <= 0x8000_0000,
            n <= 0x8000_0000,
        decreases 2 * n - p,
    {
        assert(is_power_of_two(2 * p as int));
        p = 2 * p;
        proof {
            lemma_power_gap(p as int);
        }
    }
    proof {
        lemma_next_power_unique(n as int, p as int);
    }
    p
}

/// A power of two below 2^32 is at most 2^31.
proof fn lemma_power_gap(p: int)
    requires
        is_power_of_two(p),
        p < 0x1_0000_0000,
    ensures
        p <= 0x8000_0000,
{
    reveal_with_fuel(is_power_of_two, 33);
}

/// At least one USB transfer plus some slack, as a power of two.
pub fn min_buffer_frames(rate: u32) -> (frames: u32)
    requires
        is_measurable_rate(rate as int),
    ensures
        frames == min_buffer_frames_spec(rate as int),
        1 <= frames <= 0x10_0000,
{
    let least: u32 = (rate * TRANSFER_MS * 9 / 8 + 999) / 1000;
    proof {
        law_next_power_is_least(least as int);
        assert(is_power_of_two(0x10_0000)) by {
            reveal_with_fuel(is_power_of_two, 21);
        }
        law_next_power_is_lower_bound(least as int, 0x10_0000);
    }
    next_power_of_two(least)
}

pub fn max_buffer_frames(rate: u32) -> (frames: u32)
    requires
        is_measurable_rate(rate as int),
    ensures
        frames == 8 * min_buffer_frames_spec(rate as int),
{
    min_buffer_frames(rate) * BUFFER_MULTIPLES[3]
}

impl Default for Settings {
    fn default() -> (settings: Settings)
        ensures
            settings == Settings::default_spec(),
    {
        Settings { sample_rate: 48_000, buffer_multiple: 2 }
    }
}

impl Settings {
    pub open spec fn default_spec() -> Settings {
        Settings { sample_rate: 48_000, buffer_multiple: 2 }
    }

    /// Whether both values are ones that the control panel offers.
    pub open spec fn is_offered(self) -> bool {
        is_offered_rate(self.sample_rate as int) && is_offered_multiple(self.buffer_multiple as int)
    }

    pub open spec fn load_spec(sample_rate: Option<u32>, buffer_multiple: Option<u32>) -> Settings {
        Settings {
            sample_rate: match sample_rate {
                Some(rate) if is_offered_rate(rate as int) => rate,
                _ => 48_000,
            },
            buffer_multiple: match buffer_multiple {
                Some(multiple) if is_offered_multiple(multiple as int) => multiple,
                _ => 2,
            },
        }
    }

    /// The settings from the numbers that were kept, falling back to the
    /// default for each missing or invalid value.
    pub fn load(sample_rate: Option<u32>, buffer_multiple: Option<u32>) -> (settings: Settings)
        ensures
            settings == Settings::load_spec(sample_rate, buffer_multiple),
            settings.is_offered(),
    {
        let default = Settings::default();
        let rate: u32 = match sample_rate {
            Some(rate) => if is_rate(rate) {
                rate
            } else {
                default.sample_rate
            },
            None => default.sample_rate,
        };
        let multiple: u32 = match buffer_multiple {
            Some(multiple) => if is_multiple(multiple) {
                multiple
            } else {
                default.buffer_multiple
            },
            None => default.buffer_multiple,
        };
        Settings { sample_rate: rate, buffer_multiple: multiple }
    }

    /// The numbers to keep, in the order in which they are written.
    pub fn save(&self) -> (values: [StoredValue; 2])
        ensures
            values@[0] == (StoredValue { name: SAMPLE_RATE_VALUE, value: self.sample_rate }),
            values@[1] == (StoredValue { name: BUFFER_MULTIPLE_VALUE, value: self.buffer_multiple }),
    {
        [
            StoredValue { name: SAMPLE_RATE_VALUE, value: self.sample_rate },
            StoredValue { name: BUFFER_MULTIPLE_VALUE, value: self.buffer_multiple },
        ]
    }

    pub open spec fn save_step_spec(self, written: int, last: Result<(), HResult>) -> SaveStep {
        match last {
            Err(code) => SaveStep::Failed(code),
            Ok(()) => if written == 0 {
                SaveStep::Write(StoredValue { name: SAMPLE_RATE_VALUE, value: self.sample_rate })
            } else if written == 1 {
                SaveStep::Write(StoredValue { name: BUFFER_MULTIPLE_VALUE, value: self.buffer_multiple })
            } else {
                SaveStep::Saved
            },
        }
    }

    /// What saving does after `written` numbers, the last of them with the
    /// result `last`: the first that cannot be written ends it.
    pub fn save_step(&self, written: usize, last: Result<(), HResult>) -> (step: SaveStep)
        ensures
            step == self.save_step_spec(written as int, last),
    {
        let values: [StoredValue; 2] = self.save();
        match last {
            Err(code) => SaveStep::Failed(code),
            Ok(()) => if written < 2 {
                SaveStep::Write(values[written])
            } else {
                SaveStep::Saved
            },
        }
    }

    /// What is kept in the end, and the outcome, where `written` numbers have
    /// been written, `store` is kept so far and `results` are those of the
    /// writes in their order.
    pub open spec fn saved(
        self,
        store: Store,
        written: int,
        last: Result<(), HResult>,
        results: Seq<Result<(), HResult>>,
    ) -> (Store, Result<(), HResult>)
        decreases 2 - written,
    {
        match self.save_step_spec(written, last) {
            SaveStep::Write(value) => if 0 <= written < 2 {
                self.saved(store.after_write(value, results[written]), written + 1, results[written], results)
            } else {
                (store, Ok(()))
            },
            SaveStep::Saved => (store, Ok(())),
            SaveStep::Failed(code) => (store, Err(code)),
        }
    }

    pub open spec fn buffer_frames_spec(self, rate: int) -> int {
        min_buffer_frames_spec(rate) * self.buffer_multiple
    }

    /// The buffer size, in frames, to offer a host running at `rate`.
    pub fn buffer_frames(&self, rate: u32) -> (frames: u32)
        requires
            is_measurable_rate(rate as int),
            self.buffer_frames_spec(rate as int) <= u32::MAX,
        ensures
            frames == self.buffer_frames_spec(rate as int),
    {
        min_buffer_frames(rate) * self.buffer_multiple
    }
}

/// Whether `rate` is one of [`RATES`].
pub fn is_rate(rate: u32) -> (offered: bool)
    ensures
        offered == is_offered_rate(rate as int),
{
    let rates: [u32; 5] = RATES;
    rate == rates[0] || rate == rates[1] || rate == rates[2] || rate == rates[3] || rate == rates[4]
}

/// Whether `multiple` is one of [`BUFFER_MULTIPLES`].
pub fn is_multiple(multiple: u32) -> (offered: bool)
    ensures
        offered == is_offered_multiple(multiple as int),
{
    let multiples: [u32; 4] = BUFFER_MULTIPLES;
    multiple == multiples[0] || multiple == multiples[1] || multiple == multiples[2] || multiple
        == multiples[3]
}

/// Settings that were kept are read back as they were.
pub proof fn law_saved_settings_load(settings: Settings)
    requires
        settings.is_offered(),
    ensures
        Settings::load_spec(Some(settings.sample_rate), Some(settings.buffer_multiple)) == settings,
{
}

/// Saving writes the rate and then the multiple. Where both are written, the
/// settings are read back. Where the rate is not, that is the outcome and
/// nothing changes. Where only the multiple is not, that is the outcome, and
/// the new rate is read back with the old multiple.
pub proof fn law_saving_stops_at_a_failure(
    settings: Settings,
    before: Store,
    results: Seq<Result<(), HResult>>,
)
    requires
        settings.is_offered(),
        results.len() == 2,
    ensures
        ({
            let (after, outcome) = settings.saved(before, 0, Ok(()), results);
            match (results[0], results[1]) {
                (Err(code), _) => outcome == Err::<(), HResult>(code) && after == before,
                (Ok(()), Err(code)) => {
                    &&& outcome == Err::<(), HResult>(code)
                    &&& after == (Store { sample_rate: Some(settings.sample_rate), ..before })
                    &&& after.loaded() == (Settings {
                        sample_rate: settings.sample_rate,
                        buffer_multiple: before.loaded().buffer_multiple,
                    })
                },
                (Ok(()), Ok(())) => outcome == Ok::<(), HResult>(()) && after.loaded() == settings,
            }
        }),
{
    reveal_strlit("SampleRate");
    reveal_strlit("BufferMultiple");
    reveal_with_fuel(Settings::saved, 3);
    assert(SAMPLE_RATE_VALUE@.len() != BUFFER_MULTIPLE_VALUE@.len());
}

/// The smallest buffer is a power of two and holds the frames of a USB transfer.
pub proof fn law_buffers_hold_a_transfer(rate: int)
    requires
        rate >= 0,
    ensures
        is_power_of_two(min_buffer_frames_spec(rate)),
        min_buffer_frames_spec(rate) * 1000 >= rate * TRANSFER_MS,
{
    law_next_power_is_least(transfer_frames(rate));
}

/// Buffers keep their length in time across rates: where the rate is twice as
/// high, the settings ask for twice as many frames.
pub proof fn law_buffers_keep_their_length(settings: Settings, rate: int)
    requires
        settings.is_offered(),
        is_offered_rate(rate),
        is_offered_rate(2 * rate),
    ensures
        settings.buffer_frames_spec(2 * rate) == 2 * settings.buffer_frames_spec(rate),
{
    let least = min_buffer_frames_spec(rate);
    let multiple = settings.buffer_multiple as int;
    assert((transfer_frames(2 * rate) + 1) / 2 == transfer_frames(rate));
    assert(min_buffer_frames_spec(2 * rate) == 2 * least);
    assert((2 * least) * multiple == 2 * (least * multiple)) by (nonlinear_arith);
}

/// Every buffer size that settings offer is a power of two between the
/// smallest and the largest buffer.
pub proof fn law_offered_buffers_are_powers(settings: Settings, rate: int)
    requires
        settings.is_offered(),
    ensures
        is_power_of_two(settings.buffer_frames_spec(rate)),
        min_buffer_frames_spec(rate) <= settings.buffer_frames_spec(rate) <= 8
            * min_buffer_frames_spec(rate),
{
    let least = min_buffer_frames_spec(rate);
    law_next_power_is_least(transfer_frames(rate));
    let multiple = settings.buffer_multiple as int;
    assert(multiple == 1 ==> least * multiple == least) by (nonlinear_arith);
    assert(multiple == 2 ==> least * multiple == 2 * least) by (nonlinear_arith);
    assert(multiple == 4 ==> least * multiple == 4 * least) by (nonlinear_arith);
    assert(multiple == 8 ==> least * multiple == 8 * least) by (nonlinear_arith);
    assert(is_power_of_two(2 * least));
    assert(is_power_of_two(4 * least));
    assert(is_power_of_two(8 * least));
    assert(least >= 1);
}

/// The smallest buffer is the least power of two that holds four milliseconds
/// and an eighth of them.
pub proof fn law_smallest_buffer_is_least(rate: int, frames: int)
    requires
        rate >= 0,
    ensures
        is_power_of_two(min_buffer_frames_spec(rate)),
        min_buffer_frames_spec(rate) * 1000 >= rate * 9 / 2,
        is_power_of_two(frames) && frames * 1000 >= rate * 9 / 2 ==> frames
            >= min_buffer_frames_spec(rate),
{
    law_next_power_is_least(transfer_frames(rate));
    assert(rate * 4 * 9 / 8 == rate * 9 / 2);
    if is_power_of_two(frames) && frames * 1000 >= rate * 9 / 2 {
        law_next_power_is_lower_bound(transfer_frames(rate), frames);
    }
}

/// Powers of two are one and the doubles of powers of two.
pub proof fn law_powers_are_doubled(n: int)
    requires
        n >= 1,
    ensures
        is_power_of_two(1),
        is_power_of_two(2 * n) <==> is_power_of_two(n),
        !is_power_of_two(2 * n + 1),
{
}

/// A number that is missing or not offered is replaced by its default, whatever
/// the other number is; one that is offered stays.
pub proof fn law_each_setting_falls_back(rate: Option<u32>, multiple: Option<u32>)
    ensures
        rate matches Some(hz) && (hz == 44_100 || hz == 48_000 || hz == 88_200 || hz == 96_000
            || hz == 192_000) ==> Settings::load_spec(rate, multiple).sample_rate == rate->0,
        rate is None || !(rate->0 == 44_100 || rate->0 == 48_000 || rate->0 == 88_200 || rate->0
            == 96_000 || rate->0 == 192_000) ==> Settings::load_spec(rate, multiple).sample_rate
            == 48_000,
        multiple matches Some(times) && (times == 1 || times == 2 || times == 4 || times == 8)
            ==> Settings::load_spec(rate, multiple).buffer_multiple == multiple->0,
        multiple is None || !(multiple->0 == 1 || multiple->0 == 2 || multiple->0 == 4
            || multiple->0 == 8) ==> Settings::load_spec(rate, multiple).buffer_multiple == 2,
        Settings::default_spec() == Settings::load_spec(None, None),
{
}

/// The buffer that a host is offered is the smallest one times the multiple that
/// was set.
pub proof fn law_buffers_are_multiples(settings: Settings, rate: int)
    ensures
        settings.buffer_multiple == 1 ==> settings.buffer_frames_spec(rate)
            == min_buffer_frames_spec(rate),
        settings.buffer_multiple == 2 ==> settings.buffer_frames_spec(rate) == 2
            * min_buffer_frames_spec(rate),
        settings.buffer_multiple == 4 ==> settings.buffer_frames_spec(rate) == 4
            * min_buffer_frames_spec(rate),
        settings.buffer_multiple == 8 ==> settings.buffer_frames_spec(rate) == 8
            * min_buffer_frames_spec(rate),
{
    let least = min_buffer_frames_spec(rate);
    let multiple = settings.buffer_multiple as int;
    assert(multiple == 1 ==> least * multiple == least) by (nonlinear_arith);
    assert(multiple == 2 ==> least * multiple == 2 * least) by (nonlinear_arith);
    assert(multiple == 4 ==> least * multiple == 4 * least) by (nonlinear_arith);
    assert(multiple == 8 ==> least * multiple == 8 * least) by (nonlinear_arith);
}

} // verus!
