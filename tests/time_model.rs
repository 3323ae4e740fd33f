use embassy_visor::time::{ComputerTime, EmbassyTime, TimePair};

#[test]
fn saturating_time_arithmetic() {
    let a = EmbassyTime::from_micros(5);
    let b = EmbassyTime::from_micros(9);
    assert_eq!(a.saturating_sub(b).as_micros(), 0);
    assert_eq!(b.saturating_sub(a).as_micros(), 4);
    assert_eq!(
        EmbassyTime::from_micros(u64::MAX).saturating_add(a).as_micros(),
        u64::MAX
    );
    assert_eq!(EmbassyTime::from_millis(3).as_micros(), 3000);
    assert_eq!(EmbassyTime::from_millis(u64::MAX).as_micros(), u64::MAX);
    assert_eq!(EmbassyTime::from_micros(2999).as_millis(), 2);

    let c = ComputerTime::from_s(2);
    assert_eq!(c.as_micros(), 2_000_000);
    assert_eq!(c.as_millis(), 2000);
    assert_eq!(ComputerTime::from_s(u64::MAX).as_micros(), u64::MAX);
    assert_eq!(c.saturating_sub(ComputerTime::from_s(3)).as_micros(), 0);
    assert_eq!(c.diff_to_now(ComputerTime::new_from_micros(2_500_000)), 500_000);
    assert_eq!(c.diff_to_now(ComputerTime::new_from_micros(1)), 0);
}

#[test]
fn extrapolates_device_clock_by_host_time() {
    let t = TimePair::new(EmbassyTime::from_micros(1000), ComputerTime::new_from_micros(50));
    assert_eq!(t.extrapolate_uc(ComputerTime::new_from_micros(350)).as_micros(), 1300);
    // host time before the sample: no regression below the sample
    assert_eq!(t.extrapolate_uc(ComputerTime::new_from_micros(10)).as_micros(), 1000);
    assert_eq!(t.get_uc_timestamp().as_micros(), 1000);
    assert_eq!(t.get_pc_timestamp().as_micros(), 50);
}
