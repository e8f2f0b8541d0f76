use procinfo::timing::{ticks_to_timestamp, EPOCH_OFFSET_NANOS};
use procinfo::FileTicks;

#[test]
fn zero_ticks_is_the_platform_epoch() {
    let t = ticks_to_timestamp(FileTicks { low: 0, high: 0 });
    assert_eq!(t.unix_nanos, -11_644_473_600_000_000_000);
    assert_eq!(t.unix_nanos, -EPOCH_OFFSET_NANOS);
}

#[test]
fn unix_epoch_tick_count_maps_to_zero() {
    let ticks: u64 = 116_444_736_000_000_000;
    let t = ticks_to_timestamp(FileTicks { low: ticks as u32, high: (ticks >> 32) as u32 });
    assert_eq!(t.unix_nanos, 0);
}

#[test]
fn one_tick_is_one_hundred_nanoseconds() {
    let t = ticks_to_timestamp(FileTicks { low: 1, high: 0 });
    assert_eq!(t.unix_nanos, 100 - EPOCH_OFFSET_NANOS);
}

#[test]
fn high_half_carries_its_full_weight() {
    let t = ticks_to_timestamp(FileTicks { low: 0, high: 1 });
    assert_eq!(t.unix_nanos, 0x1_0000_0000i128 * 100 - EPOCH_OFFSET_NANOS);
}

#[test]
fn largest_tick_count_does_not_overflow() {
    let t = ticks_to_timestamp(FileTicks { low: u32::MAX, high: u32::MAX });
    assert_eq!(t.unix_nanos, u64::MAX as i128 * 100 - EPOCH_OFFSET_NANOS);
}
