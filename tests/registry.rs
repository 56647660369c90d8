use ruuvi_prometheus::{
    DeviceAddress, Quantity, RuuviGauges, Sample, SensorReading, CLEANUP_PERIOD_MS,
    STALE_TIMEOUT_MS,
};

fn addr(last: u8) -> DeviceAddress {
    DeviceAddress::new([last, 0x11, 0x22, 0x33, 0x44, 0x55])
}

fn full_reading() -> SensorReading {
    SensorReading {
        temperature: Some(21_500),
        humidity: Some(455_000),
        pressure: Some(101_325),
        battery_potential: Some(2_950),
        movement_counter: Some(7),
        sequence_number: Some(1234),
    }
}

fn temperature_only(t: i32) -> SensorReading {
    SensorReading {
        temperature: Some(t),
        ..SensorReading::empty()
    }
}

fn has_sample(samples: &[Sample], q: Quantity, a: DeviceAddress) -> Option<i64> {
    let found: Vec<&Sample> = samples
        .iter()
        .filter(|s| s.quantity == q && s.address == a)
        .collect();
    assert!(found.len() <= 1);
    found.first().map(|s| s.value)
}

#[test]
fn configuration_defaults() {
    assert_eq!(STALE_TIMEOUT_MS, 10_000);
    assert_eq!(CLEANUP_PERIOD_MS, 1_000);
    let g = RuuviGauges::new(STALE_TIMEOUT_MS);
    assert_eq!(g.stale_timeout(), 10_000);
    assert_eq!(g.len(), 0);
    assert!(g.gather().is_empty());
}

#[test]
fn presence_after_record() {
    let mut g = RuuviGauges::new(STALE_TIMEOUT_MS);
    let a = addr(1);
    g.update_sensor_values(a, temperature_only(23_456), 0);
    let samples = g.gather();
    assert_eq!(samples.len(), 1);
    assert_eq!(has_sample(&samples, Quantity::Temperature, a), Some(23_456));
    assert_eq!(Quantity::Temperature.unit_divisor(), 1000);
    let exposed = 23_456f64 * (1.0 / Quantity::Temperature.unit_divisor() as f64);
    assert_eq!(exposed, 23_456f64 * 1e-3);
    assert_eq!(g.last_seen(&a), Some(0));
}

#[test]
fn full_reading_exposes_all_six() {
    let mut g = RuuviGauges::new(STALE_TIMEOUT_MS);
    let a = addr(2);
    g.update_sensor_values(a, full_reading(), 5);
    let samples = g.gather();
    assert_eq!(samples.len(), 6);
    assert_eq!(has_sample(&samples, Quantity::Temperature, a), Some(21_500));
    assert_eq!(has_sample(&samples, Quantity::Humidity, a), Some(455_000));
    assert_eq!(has_sample(&samples, Quantity::Pressure, a), Some(101_325));
    assert_eq!(has_sample(&samples, Quantity::BatteryPotential, a), Some(2_950));
    assert_eq!(has_sample(&samples, Quantity::MovementCounter, a), Some(7));
    assert_eq!(has_sample(&samples, Quantity::SequenceNumber, a), Some(1234));
}

#[test]
fn negative_temperature_kept() {
    let mut g = RuuviGauges::new(STALE_TIMEOUT_MS);
    let a = addr(3);
    g.update_sensor_values(a, temperature_only(-12_345), 0);
    assert_eq!(g.value(Quantity::Temperature, &a), Some(-12_345));
}

#[test]
fn field_omission_removes_only_that_field() {
    let mut g = RuuviGauges::new(STALE_TIMEOUT_MS);
    let a = addr(4);
    let both = SensorReading {
        temperature: Some(20_000),
        humidity: Some(500_000),
        ..SensorReading::empty()
    };
    g.update_sensor_values(a, both, 0);
    assert_eq!(g.value(Quantity::Humidity, &a), Some(500_000));
    g.update_sensor_values(a, temperature_only(20_100), 100);
    assert_eq!(g.value(Quantity::Humidity, &a), None);
    assert_eq!(g.value(Quantity::Temperature, &a), Some(20_100));
    let samples = g.gather();
    assert_eq!(has_sample(&samples, Quantity::Humidity, a), None);
    assert_eq!(samples.len(), 1);
    assert_eq!(g.last_seen(&a), Some(100));
}

#[test]
fn staleness_eviction() {
    let mut g = RuuviGauges::new(STALE_TIMEOUT_MS);
    let a = addr(5);
    g.update_sensor_values(a, full_reading(), 0);
    let mut t = CLEANUP_PERIOD_MS;
    while t < 10_000 {
        g.sweep(t);
        assert_eq!(g.gather().len(), 6, "evicted too early at {}", t);
        t += CLEANUP_PERIOD_MS;
    }
    g.sweep(9_999);
    assert_eq!(g.len(), 1);
    g.sweep(10_000);
    assert_eq!(g.len(), 0);
    assert!(g.gather().is_empty());
    assert_eq!(g.last_seen(&a), None);
    g.sweep(11_000);
    assert!(g.gather().is_empty());
}

#[test]
fn refresh_resets_the_clock() {
    let mut g = RuuviGauges::new(STALE_TIMEOUT_MS);
    let a = addr(6);
    g.update_sensor_values(a, full_reading(), 0);
    let mut t = 1_000;
    while t <= 15_000 {
        if t == 9_000 {
            g.update_sensor_values(a, full_reading(), 9_000);
        }
        g.sweep(t);
        t += 1_000;
    }
    assert_eq!(g.gather().len(), 6);
    assert_eq!(g.last_seen(&a), Some(9_000));
    g.sweep(19_000);
    assert!(g.gather().is_empty());
}

#[test]
fn no_false_eviction_under_load() {
    let mut g = RuuviGauges::new(STALE_TIMEOUT_MS);
    let a = addr(7);
    let mut t: u64 = 0;
    while t <= 30_000 {
        g.update_sensor_values(a, full_reading(), t);
        if t % 1_000 == 0 {
            g.sweep(t);
            assert_eq!(g.value(Quantity::Temperature, &a), Some(21_500));
        }
        t += 100;
    }
    assert_eq!(g.len(), 1);
}

#[test]
fn eviction_is_independent_across_devices() {
    let mut g = RuuviGauges::new(STALE_TIMEOUT_MS);
    let a = addr(8);
    let b = addr(9);
    g.update_sensor_values(a, full_reading(), 0);
    g.update_sensor_values(b, temperature_only(1_000), 5_000);
    g.sweep(10_000);
    assert_eq!(g.last_seen(&a), None);
    assert_eq!(g.last_seen(&b), Some(5_000));
    let samples = g.gather();
    assert_eq!(samples.len(), 1);
    assert_eq!(has_sample(&samples, Quantity::Temperature, b), Some(1_000));
    assert!(g.remove_sensor_values(&b));
    assert!(!g.remove_sensor_values(&b));
    assert!(!g.remove_sensor_values(&a));
    assert_eq!(g.len(), 0);
}

#[test]
fn reregistration_after_eviction() {
    let mut g = RuuviGauges::new(STALE_TIMEOUT_MS);
    let a = addr(10);
    g.update_sensor_values(a, full_reading(), 0);
    g.sweep(20_000);
    assert!(g.gather().is_empty());
    g.update_sensor_values(a, full_reading(), 21_000);

    let mut fresh = RuuviGauges::new(STALE_TIMEOUT_MS);
    fresh.update_sensor_values(a, full_reading(), 21_000);
    assert_eq!(g.gather(), fresh.gather());
    assert_eq!(g.entry(&a), fresh.entry(&a));
    assert_eq!(g.gather().len(), 6);
}

#[test]
fn sweep_with_clock_behind_keeps_device() {
    let mut g = RuuviGauges::new(STALE_TIMEOUT_MS);
    let a = addr(11);
    g.update_sensor_values(a, full_reading(), 50_000);
    g.sweep(10);
    assert_eq!(g.len(), 1);
}

#[test]
fn zero_timeout_evicts_everything() {
    let mut g = RuuviGauges::new(0);
    g.update_sensor_values(addr(12), full_reading(), 100);
    g.update_sensor_values(addr(13), full_reading(), 100);
    g.sweep(100);
    assert_eq!(g.len(), 0);
}

#[test]
fn record_keeps_one_entry_per_device() {
    let mut g = RuuviGauges::new(STALE_TIMEOUT_MS);
    let a = addr(14);
    for t in 0..5u64 {
        g.update_sensor_values(a, full_reading(), t);
    }
    assert_eq!(g.len(), 1);
    assert_eq!(g.gather().len(), 6);
}

#[test]
fn empty_reading_exposes_nothing_but_tracks_device() {
    let mut g = RuuviGauges::new(STALE_TIMEOUT_MS);
    let a = addr(15);
    g.update_sensor_values(a, SensorReading::empty(), 42);
    assert!(g.gather().is_empty());
    assert_eq!(g.last_seen(&a), Some(42));
}

#[test]
fn quantity_metadata() {
    let names: Vec<&str> = Quantity::all().iter().map(|q| q.metric_name()).collect();
    assert_eq!(
        names,
        vec![
            "ruuvi_temperature",
            "ruuvi_humidity",
            "ruuvi_pressure",
            "ruuvi_battery_potential",
            "ruuvi_movement_counter",
            "ruuvi_sequence_number",
        ]
    );
    let divisors: Vec<u32> = Quantity::all().iter().map(|q| q.unit_divisor()).collect();
    assert_eq!(divisors, vec![1000, 10000, 1000, 1, 1, 1]);
    assert!(Quantity::MovementCounter.is_integer());
    assert!(Quantity::SequenceNumber.is_integer());
    assert!(!Quantity::Humidity.is_integer());
    assert_eq!(Quantity::at(3), Quantity::BatteryPotential);
    assert_eq!(
        Quantity::Humidity.help(),
        "humidity reported by ruuvi sensor"
    );
}
