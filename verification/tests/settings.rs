use ak1::settings::{
    max_buffer_frames, min_buffer_frames, SaveStep, Settings, BUFFER_MULTIPLES, RATES, TRANSFER_MS,
};

#[test]
fn buffers_hold_a_usb_transfer_and_keep_their_length_across_rates() {
    let sizes = RATES.map(min_buffer_frames);
    assert_eq!(sizes, [256, 256, 512, 512, 1024]);
    for (rate, size) in RATES.into_iter().zip(sizes) {
        assert!(size * 1000 >= rate * TRANSFER_MS);
    }
    let settings = Settings { sample_rate: 48_000, buffer_multiple: 4 };
    assert_eq!(settings.buffer_frames(96_000), 2048);
    assert_eq!(max_buffer_frames(192_000), 8192);
}

#[test]
fn invalid_settings_fall_back_one_by_one() {
    assert_eq!(Settings::load(None, None), Settings::default());
    assert_eq!(Settings::load(Some(96_000), Some(3)), Settings { sample_rate: 96_000, buffer_multiple: 2 });
    assert_eq!(Settings::load(Some(8_000), Some(8)), Settings { sample_rate: 48_000, buffer_multiple: 8 });
}

#[test]
fn saved_settings_are_loaded_as_they_were() {
    for sample_rate in RATES {
        for buffer_multiple in BUFFER_MULTIPLES {
            let settings = Settings { sample_rate, buffer_multiple };
            let [rate, multiple] = settings.save();
            assert_eq!((rate.name, multiple.name), ("SampleRate", "BufferMultiple"));
            assert_eq!(Settings::load(Some(rate.value), Some(multiple.value)), settings);
            assert!(settings.buffer_frames(sample_rate).is_power_of_two());
        }
    }
}

#[test]
fn buffers_double_with_the_rate() {
    for multiple in BUFFER_MULTIPLES {
        let settings = Settings { sample_rate: 44_100, buffer_multiple: multiple };
        assert_eq!(settings.buffer_frames(44_100), 256 * multiple);
        for (low, high) in [(44_100, 88_200), (48_000, 96_000), (96_000, 192_000)] {
            assert_eq!(settings.buffer_frames(high), 2 * settings.buffer_frames(low));
        }
    }
}

/// Saves into a store that fails where `results` says so.
fn save(settings: Settings, store: &mut [Option<u32>; 2], results: [Result<(), i32>; 2]) -> Result<(), i32> {
    let (mut written, mut last) = (0, Ok(()));
    loop {
        match settings.save_step(written, last) {
            SaveStep::Write(value) => {
                last = results[written];
                if last.is_ok() {
                    store[if value.name == "SampleRate" { 0 } else { 1 }] = Some(value.value);
                }
                written += 1;
            }
            SaveStep::Saved => return Ok(()),
            SaveStep::Failed(code) => return Err(code),
        }
    }
}

#[test]
fn saving_stops_at_the_first_failure() {
    let old = [Some(44_100), Some(8)];
    let settings = Settings { sample_rate: 96_000, buffer_multiple: 4 };
    let loaded = |store: [Option<u32>; 2]| Settings::load(store[0], store[1]);
    let mut store = old;
    assert_eq!(save(settings, &mut store, [Err(-5), Ok(())]), Err(-5));
    assert_eq!(store, old);
    assert_eq!(save(settings, &mut store, [Ok(()), Err(-6)]), Err(-6));
    assert_eq!(loaded(store), Settings { sample_rate: 96_000, buffer_multiple: 8 });
    assert_eq!(save(settings, &mut store, [Ok(()), Ok(())]), Ok(()));
    assert_eq!(loaded(store), settings);
}
