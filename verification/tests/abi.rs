use ak1::abi::{c_str, write_c_string, AsioChannelInfo, AsioClockSource, AsioU64};

#[test]
fn split_counts_put_the_high_word_first() {
    let value = AsioU64::from(0x1_0000_0002);
    assert_eq!((value.hi, value.lo), (1, 2));
    assert_eq!(u64::from(value), 0x1_0000_0002);
}

#[test]
fn largest_count_survives_splitting() {
    assert_eq!(AsioU64::from(u64::MAX), AsioU64 { hi: u32::MAX, lo: u32::MAX });
    assert_eq!(u64::from(AsioU64::from(u64::MAX)), u64::MAX);
    assert_eq!(AsioU64::default(), AsioU64::from(0));
}

#[test]
fn described_structs_have_the_sizes_hosts_expect() {
    assert_eq!(std::mem::size_of::<AsioChannelInfo>(), 52);
    assert_eq!(std::mem::size_of::<AsioClockSource>(), 48);
}

#[test]
fn c_strings_end_in_a_nul_and_keep_what_follows() {
    let mut memory = [0xee; 6];
    write_c_string(&mut memory, "abc");
    assert_eq!(memory, [b'a', b'b', b'c', 0, 0xee, 0xee]);
    assert_eq!(c_str(&memory), b"abc");
}

#[test]
fn long_c_strings_are_cut() {
    let mut memory = [0xee; 4];
    write_c_string(&mut memory, "abcdef");
    assert_eq!(memory, [b'a', b'b', b'c', 0]);
    assert_eq!(c_str(b"no end"), b"no end");
}
