use procwatt::{
    cpu_seconds, energy_wh, parse_decimal_u64, process_ticks, ticks_from_record, ClockRate,
    MetricSample, Observation, PowerModel, ProcessIdentity, Sampler, StartupError,
};

fn record(user: &str, kernel: &str) -> Vec<u8> {
    format!(
        "4242 (worker) S 1 4242 4242 0 -1 4194560 1200 0 3 0 {} {} 0 0 20 0 4 0 5000 12345678 900 18446744073709551615",
        user, kernel
    )
    .into_bytes()
}

fn identity(pid: u32, name: &str, cmdline: &str) -> ProcessIdentity {
    ProcessIdentity::new(pid, name.to_string(), cmdline.to_string())
}

fn observed(id: &ProcessIdentity, rec: Option<Vec<u8>>) -> Observation {
    Observation { identity: id.clone(), record: rec }
}

fn sampler() -> Sampler {
    Sampler::start(100, 7, 35_000).unwrap()
}

#[test]
fn end_to_end_example() {
    let power = PowerModel::new(35_000, 7).unwrap();
    assert_eq!(power.average_core_milliwatts(), 5_000);
    let clock = ClockRate::from_ticks_per_second(100).unwrap();
    assert_eq!(cpu_seconds(1000, clock), 10);
    assert_eq!(energy_wh(1000, clock, power), 0);
    assert_eq!(cpu_seconds(1_000_000, clock), 10_000);
    assert_eq!(energy_wh(1_000_000, clock, power), 13);
    let s = sampler();
    assert_eq!(s.convert(1_000_000), MetricSample { cpu_seconds: 10_000, energy_wh: 13 });
}

#[test]
fn cpu_seconds_drops_the_fraction() {
    let clock = ClockRate::from_ticks_per_second(100).unwrap();
    assert_eq!(cpu_seconds(0, clock), 0);
    assert_eq!(cpu_seconds(99, clock), 0);
    assert_eq!(cpu_seconds(100, clock), 1);
    assert_eq!(cpu_seconds(1999, clock), 19);
    assert_eq!(cpu_seconds(u64::MAX, clock), u64::MAX / 100);
}

#[test]
fn energy_uses_unrounded_seconds_and_core_power() {
    // 3 cores sharing 10 W: 10/3 W per core, never rounded to 3 W.
    let power = PowerModel::new(10_000, 3).unwrap();
    let clock = ClockRate::from_ticks_per_second(1).unwrap();
    // 3240 s * 10/3 W = 10800 Ws = 3 Wh; a rounded 3333 mW would give 2 Wh.
    assert_eq!(energy_wh(3240, clock, power), 3);
    // 7199 ticks at 2 per second are 3599.5 s; at 1 W per core that is 0.9998 Wh.
    let one_watt = PowerModel::new(1_000, 1).unwrap();
    let half = ClockRate::from_ticks_per_second(2).unwrap();
    assert_eq!(energy_wh(7199, half, one_watt), 0);
    assert_eq!(energy_wh(7200, half, one_watt), 1);
    assert_eq!(energy_wh(0, clock, power), 0);
}

#[test]
fn energy_is_held_at_the_largest_value() {
    let power = PowerModel::new(u64::MAX, 1).unwrap();
    let clock = ClockRate::from_ticks_per_second(1).unwrap();
    assert_eq!(energy_wh(u64::MAX, clock, power), u64::MAX);
}

#[test]
fn zero_die_power_gives_zero_energy() {
    let power = PowerModel::new(0, 4).unwrap();
    let clock = ClockRate::from_ticks_per_second(100).unwrap();
    assert_eq!(energy_wh(1_000_000_000, clock, power), 0);
}

#[test]
fn models_refuse_non_positive_inputs() {
    assert!(ClockRate::from_ticks_per_second(0).is_none());
    assert!(ClockRate::from_ticks_per_second(-1).is_none());
    assert!(PowerModel::new(35_000, 0).is_none());
    assert_eq!(ClockRate::from_ticks_per_second(250).unwrap().ticks_per_second(), 250);
    let p = PowerModel::new(65_000, 8).unwrap();
    assert_eq!(p.die_milliwatts(), 65_000);
    assert_eq!(p.num_physical_cores(), 8);
    assert_eq!(p.average_core_milliwatts(), 8_125);
}

#[test]
fn startup_errors() {
    assert_eq!(Sampler::start(0, 4, 35_000).err(), Some(StartupError::ClockRateUnavailable));
    assert_eq!(Sampler::start(-1, 0, 35_000).err(), Some(StartupError::ClockRateUnavailable));
    assert_eq!(Sampler::start(100, 0, 35_000).err(), Some(StartupError::NoPhysicalCores));
    let s = Sampler::start(100, 4, 35_000).unwrap();
    assert_eq!(s.clock().ticks_per_second(), 100);
    assert_eq!(s.power().num_physical_cores(), 4);
    assert_eq!(s.power().die_milliwatts(), 35_000);
    assert!(s.store().is_empty());
}

#[test]
fn resolve_asks_the_os() {
    let s = Sampler::resolve(35_000).unwrap();
    assert!(s.clock().ticks_per_second() > 0);
    assert!(s.power().num_physical_cores() > 0);
    assert_eq!(s.power().die_milliwatts(), 35_000);
    assert!(s.store().is_empty());
}

#[test]
fn record_ticks_add_user_and_kernel() {
    assert_eq!(ticks_from_record(&record("250", "75")), Some(325));
    assert_eq!(process_ticks(&Some(record("0", "0"))), 0);
    assert_eq!(process_ticks(&Some(record("1", "2"))), 3);
    assert_eq!(ticks_from_record(&record("+7", "1")), Some(8));
}

#[test]
fn malformed_records_give_none_or_zero() {
    assert_eq!(ticks_from_record(b""), None);
    assert_eq!(ticks_from_record(b"1 (a) S 1 2 3"), None);
    assert_eq!(ticks_from_record(&record("12x", "1")), None);
    assert_eq!(ticks_from_record(&record("", "1")), None);
    assert_eq!(ticks_from_record(&record("-3", "1")), None);
    assert_eq!(ticks_from_record(&record("18446744073709551615", "1")), None);
    assert_eq!(ticks_from_record(&record("18446744073709551615", "0")), Some(u64::MAX));
    // No command name closed by a parenthesis and a space.
    assert_eq!(ticks_from_record(b"7 worker S 1 7 7 0 -1 0 0 0 0 0 5 6 0 0"), None);
    assert_eq!(ticks_from_record(b"7 (worker)S 1 7 7 0 -1 0 0 0 0 0 5 6 0 0"), None);
    assert_eq!(ticks_from_record(b"7 (worker)"), None);
    assert_eq!(ticks_from_record(b"7 (worker) "), None);
    assert_eq!(process_ticks(&Some(b"7 (w) S 1".to_vec())), 0);
    assert_eq!(process_ticks(&None), 0);
}

#[test]
fn command_name_with_spaces_is_skipped() {
    let rec = b"7 (Web Content) S 1 7 7 0 -1 0 0 0 0 5 600 400 0 0 20 0 1 0 100 8192 200";
    assert_eq!(ticks_from_record(rec), Some(1000));
    assert_eq!(process_ticks(&Some(rec.to_vec())), 1000);
}

#[test]
fn command_name_with_parentheses_ends_at_the_last_one() {
    let rec = b"9 (a) (b c)) R 1 9 9 0 -1 0 0 0 0 0 12 34 0 0";
    assert_eq!(ticks_from_record(rec), Some(46));
    let bare = b"9 () R 1 9 9 0 -1 0 0 0 0 0 1 2";
    assert_eq!(ticks_from_record(bare), Some(3));
}

#[test]
fn decimal_parsing_follows_u64_rules() {
    assert_eq!(parse_decimal_u64(b"0"), Some(0));
    assert_eq!(parse_decimal_u64(b"007"), Some(7));
    assert_eq!(parse_decimal_u64(b"+42"), Some(42));
    assert_eq!(parse_decimal_u64(b"18446744073709551615"), Some(u64::MAX));
    assert_eq!(parse_decimal_u64(b"18446744073709551616"), None);
    assert_eq!(parse_decimal_u64(b"99999999999999999999999"), None);
    assert_eq!(parse_decimal_u64(b""), None);
    assert_eq!(parse_decimal_u64(b"+"), None);
    assert_eq!(parse_decimal_u64(b"-1"), None);
    assert_eq!(parse_decimal_u64(b"1 2"), None);
}

#[test]
fn pass_stores_converted_samples() {
    let mut s = sampler();
    let a = identity(10, "alpha", "alpha --serve");
    s.run_pass(&vec![observed(&a, Some(record("600000", "400000")))]);
    assert_eq!(s.store().get(&a), Some(MetricSample { cpu_seconds: 10_000, energy_wh: 13 }));
    assert_eq!(s.store().get(&identity(10, "alpha", "alpha")), None);
}

#[test]
fn repeated_pass_is_idempotent() {
    let mut s = sampler();
    let a = identity(1, "a", "a");
    let obs = vec![observed(&a, Some(record("4000", "1000")))];
    s.run_pass(&obs);
    let once = s.store().get(&a);
    s.run_pass(&obs);
    assert_eq!(s.store().get(&a), once);
    assert_eq!(once, Some(MetricSample { cpu_seconds: 50, energy_wh: 0 }));
}

#[test]
fn later_pass_overwrites() {
    let mut s = Sampler::start(1, 1, 3_600_000).unwrap();
    let a = identity(2, "b", "b -x");
    s.run_pass(&vec![observed(&a, Some(record("100", "0")))]);
    assert_eq!(s.store().get(&a), Some(MetricSample { cpu_seconds: 100, energy_wh: 100 }));
    s.run_pass(&vec![observed(&a, Some(record("150", "0")))]);
    assert_eq!(s.store().get(&a), Some(MetricSample { cpu_seconds: 150, energy_wh: 150 }));
}

#[test]
fn failed_read_does_not_affect_others() {
    let mut s = Sampler::start(1, 1, 3_600_000).unwrap();
    let a = identity(3, "gone", "gone");
    let b = identity(4, "here", "here");
    s.run_pass(&vec![observed(&a, Some(record("40", "2")))]);
    s.run_pass(&vec![observed(&a, None), observed(&b, Some(record("20", "5")))]);
    assert_eq!(s.store().get(&b), Some(MetricSample { cpu_seconds: 25, energy_wh: 25 }));
    assert_eq!(s.store().get(&a), Some(MetricSample { cpu_seconds: 0, energy_wh: 0 }));
}

#[test]
fn exited_process_stays_in_store() {
    let mut s = sampler();
    let a = identity(5, "short", "short-lived");
    let b = identity(6, "long", "long-lived");
    s.run_pass(&vec![observed(&a, Some(record("700", "300"))), observed(&b, Some(record("1", "0")))]);
    s.run_pass(&vec![observed(&b, Some(record("2", "0")))]);
    s.run_pass(&vec![]);
    assert_eq!(s.store().get(&a), Some(MetricSample { cpu_seconds: 10, energy_wh: 0 }));
    assert_eq!(s.store().snapshot().len(), 2);
}

#[test]
fn reused_pid_with_other_command_is_a_new_series() {
    let mut s = sampler();
    let old = identity(7, "sh", "sh -c one");
    let new = identity(7, "sh", "sh -c two");
    s.run_pass(&vec![observed(&old, Some(record("500", "0")))]);
    s.run_pass(&vec![observed(&new, Some(record("100", "0")))]);
    assert_eq!(s.store().get(&old).unwrap().cpu_seconds, 5);
    assert_eq!(s.store().get(&new).unwrap().cpu_seconds, 1);
    let same = identity(7, "sh", "sh -c two");
    s.run_pass(&vec![observed(&same, Some(record("300", "0")))]);
    assert_eq!(s.store().get(&new).unwrap().cpu_seconds, 3);
    assert_eq!(s.store().snapshot().len(), 2);
}

#[test]
fn duplicate_identity_in_one_pass_keeps_last() {
    let mut s = Sampler::start(1, 1, 3_600_000).unwrap();
    let a = identity(8, "dup", "dup");
    s.run_pass(&vec![observed(&a, Some(record("9", "0"))), observed(&a, Some(record("4", "0")))]);
    assert_eq!(s.store().get(&a), Some(MetricSample { cpu_seconds: 4, energy_wh: 4 }));
}

#[test]
fn snapshot_copies_every_entry() {
    let mut s = sampler();
    let a = identity(9, "x", "x");
    let b = identity(11, "y", "y 1");
    s.run_pass(&vec![observed(&a, Some(record("100", "0"))), observed(&b, Some(record("0", "300")))]);
    let snap = s.store().snapshot();
    assert_eq!(snap.len(), 2);
    for e in &snap {
        assert_eq!(s.store().get(&e.identity), Some(e.sample));
    }
    assert!(snap.iter().any(|e| e.identity == b && e.sample.cpu_seconds == 3));
}

#[test]
fn identity_helpers() {
    let a = identity(1, "n", "c d");
    assert!(a.same_as(&a.duplicate()));
    assert!(!a.same_as(&identity(2, "n", "c d")));
    assert!(!a.same_as(&identity(1, "m", "c d")));
    assert!(!a.same_as(&identity(1, "n", "c")));
}
