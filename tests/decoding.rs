use ruuvi_prometheus::{
    event_address, parse_event, parse_manufacturer_data, DeviceAddress, DeviceEvent, Quantity,
    SensorReading, MANUFACTURER_ID,
};

const V3_PAYLOAD: [u8; 14] = [
    0x03, 0x17, 0x01, 0x45, 0x35, 0x58, 0x03, 0xE8, 0x04, 0xE7, 0x05, 0xE6, 0x08, 0x86,
];

fn with_id(id: u16, payload: &[u8]) -> Vec<u8> {
    let mut data = id.to_le_bytes().to_vec();
    data.extend_from_slice(payload);
    data
}

#[test]
fn decodes_format_three() {
    let data = with_id(MANUFACTURER_ID, &V3_PAYLOAD);
    let reading = parse_manufacturer_data(&data).expect("decodes");
    assert_eq!(reading.temperature, Some(1690));
    assert_eq!(reading.humidity, Some(115_000));
    assert_eq!(reading.pressure, Some(63_656));
    assert_eq!(reading.battery_potential, Some(2182));
    assert_eq!(reading.movement_counter, None);
    assert_eq!(reading.sequence_number, None);
    assert_eq!(reading.value(Quantity::Temperature), Some(1690));
}

#[test]
fn wrong_manufacturer_is_dropped() {
    let data = with_id(0x0059, &V3_PAYLOAD);
    assert_eq!(parse_manufacturer_data(&data), None);
}

#[test]
fn short_data_is_dropped() {
    assert_eq!(parse_manufacturer_data(&vec![]), None);
    assert_eq!(parse_manufacturer_data(&vec![0x99]), None);
    assert_eq!(parse_manufacturer_data(&vec![0x99, 0x04]), None);
}

#[test]
fn unsupported_version_is_dropped() {
    let mut payload = V3_PAYLOAD;
    payload[0] = 0x07;
    assert_eq!(parse_manufacturer_data(&with_id(MANUFACTURER_ID, &payload)), None);
}

#[test]
fn truncated_payload_is_dropped() {
    let data = with_id(MANUFACTURER_ID, &V3_PAYLOAD[..10]);
    assert_eq!(parse_manufacturer_data(&data), None);
}

#[test]
fn events_that_carry_data() {
    let a = DeviceAddress::new([1, 2, 3, 4, 5, 6]);
    let data = Some(with_id(MANUFACTURER_ID, &V3_PAYLOAD));
    assert_eq!(event_address(&DeviceEvent::Discovered(a)), Some(a));
    assert_eq!(event_address(&DeviceEvent::Updated(a)), Some(a));
    assert_eq!(event_address(&DeviceEvent::Lost(a)), None);
    assert_eq!(event_address(&DeviceEvent::Connected(a)), None);
    assert_eq!(event_address(&DeviceEvent::Disconnected(a)), None);

    let (got, reading) = parse_event(&DeviceEvent::Updated(a), &data).expect("parsed");
    assert_eq!(got, a);
    assert_eq!(reading.temperature, Some(1690));
    assert!(parse_event(&DeviceEvent::Discovered(a), &data).is_some());
    assert_eq!(parse_event(&DeviceEvent::Lost(a), &data), None);
    assert_eq!(parse_event(&DeviceEvent::Updated(a), &None), None);
    assert_eq!(
        parse_event(&DeviceEvent::Updated(a), &Some(vec![0x99, 0x04, 0x07])),
        None
    );
}

#[test]
fn address_label_is_colon_hex_most_significant_first() {
    let a = DeviceAddress::new([0xA5, 0xB4, 0xC3, 0xD2, 0xE1, 0xF0]);
    assert_eq!(a.label(), "F0:E1:D2:C3:B4:A5");
    let b = DeviceAddress::new([0x00, 0x01, 0x0A, 0x10, 0x9F, 0xFF]);
    assert_eq!(b.label(), "FF:9F:10:0A:01:00");
}

#[test]
fn address_equality_is_bytewise() {
    let a = DeviceAddress::new([1, 2, 3, 4, 5, 6]);
    let b = DeviceAddress::new([1, 2, 3, 4, 5, 6]);
    let c = DeviceAddress::new([1, 2, 3, 4, 5, 7]);
    assert!(a.same_as(&b));
    assert!(!a.same_as(&c));
}

#[test]
fn empty_reading_has_no_values() {
    let r = SensorReading::empty();
    for q in Quantity::all() {
        assert_eq!(r.value(q), None);
    }
}
