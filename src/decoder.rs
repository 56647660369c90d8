use vstd::prelude::*;
use vstd::slice::slice_subrange;
use ruuvi_sensor_protocol::{
    BatteryPotential, Humidity, MeasurementSequenceNumber, MovementCounter, Pressure, Temperature,
};
use crate::address::DeviceAddress;
use crate::reading::SensorReading;

verus! {

/// The manufacturer id under which sensor tags publish their data.
pub const MANUFACTURER_ID: u16 = 0x0499;

/// What the sensor protocol decoder makes of a payload sent under a
/// manufacturer id.
pub uninterp spec fn decoded(id: u16, payload: Seq<u8>) -> Option<SensorReading>;

/// Relies on `ruuvi_sensor_protocol::SensorValues::from_manufacturer_specific_data`
/// to parse the payload, and on the accessors of the `SensorValues` it returns
/// (`temperature_as_millicelsius`, `humidity_as_ppm`, `pressure_as_pascals`,
/// `battery_potential_as_millivolts`, `movement_counter`,
/// `measurement_sequence_number`) for the six fields. The parser refuses
/// every id but 0x0499 and an empty payload.
#[verifier::external_body]
fn decode_payload(id: u16, payload: &[u8]) -> (r: Option<SensorReading>)
    ensures
        r == decoded(id, payload@),
        id != MANUFACTURER_ID ==> r.is_none(),
        payload@.len() == 0 ==> r.is_none(),
{
    match ruuvi_sensor_protocol::SensorValues::from_manufacturer_specific_data(id, payload) {
        Ok(v) => Some(SensorReading {
            temperature: v.temperature_as_millicelsius(),
            humidity: v.humidity_as_ppm(),
            pressure: v.pressure_as_pascals(),
            battery_potential: v.battery_potential_as_millivolts(),
            movement_counter: v.movement_counter(),
            sequence_number: v.measurement_sequence_number(),
        }),
        Err(_) => None,
    }
}

/// The little-endian 16-bit number held by two bytes.
pub open spec fn le_u16(lo: u8, hi: u8) -> u16 {
    (lo as int + 256 * (hi as int)) as u16
}

/// The reading in a manufacturer-specific data field: its first two bytes
/// are the manufacturer id (little endian), the rest is the payload.
pub open spec fn manufacturer_reading(data: Seq<u8>) -> Option<SensorReading> {
    if data.len() >= 2 {
        decoded(le_u16(data[0], data[1]), data.subrange(2, data.len() as int))
    } else {
        None
    }
}

/// Parses manufacturer-specific data into a reading; `None` when the data is
/// shorter than the id or the decoder refuses it.
pub fn parse_manufacturer_data(data: &Vec<u8>) -> (r: Option<SensorReading>)
    ensures
        r == manufacturer_reading(data@),
        data@.len() < 3 ==> r.is_none(),
        data@.len() >= 2 && le_u16(data@[0], data@[1]) != MANUFACTURER_ID ==> r.is_none(),
{
    if data.len() >= 2 {
        let id: u16 = data[0] as u16 + (data[1] as u16) * 256;
        let payload = slice_subrange(data.as_slice(), 2, data.len());
        decode_payload(id, payload)
    } else {
        None
    }
}

/// An event of the radio scanner, reduced to what the library reads of it.
#[derive(Clone, Copy, Debug, PartialEq, Eq)]
pub enum DeviceEvent {
    Discovered(DeviceAddress),
    Lost(DeviceAddress),
    Updated(DeviceAddress),
    Connected(DeviceAddress),
    Disconnected(DeviceAddress),
}

/// The device whose advertisement data an event announces, if any: only
/// discoveries and updates carry fresh data.
pub open spec fn announced(event: DeviceEvent) -> Option<DeviceAddress> {
    match event {
        DeviceEvent::Discovered(a) => Some(a),
        DeviceEvent::Updated(a) => Some(a),
        _ => None,
    }
}

/// The contents of an optional byte vector.
pub open spec fn bytes_of(data: Option<Vec<u8>>) -> Option<Seq<u8>> {
    match data {
        Some(d) => Some(d@),
        None => None,
    }
}

/// The device and reading that an event yields, given the manufacturer data
/// that the announced device currently advertises.
pub open spec fn event_reading(event: DeviceEvent, data: Option<Seq<u8>>) -> Option<(DeviceAddress, SensorReading)> {
    match (announced(event), data) {
        (Some(a), Some(d)) => match manufacturer_reading(d) {
            Some(r) => Some((a, r)),
            None => None,
        },
        _ => None,
    }
}

/// The device whose data should be looked up for this event, if any.
pub fn event_address(event: &DeviceEvent) -> (r: Option<DeviceAddress>)
    ensures
        r == announced(*event),
{
    match event {
        DeviceEvent::Discovered(a) => Some(*a),
        DeviceEvent::Updated(a) => Some(*a),
        _ => None,
    }
}

/// Turns a scanner event and the manufacturer data of its device into a
/// reading for that device.
pub fn parse_event(event: &DeviceEvent, manufacturer_data: &Option<Vec<u8>>) -> (r: Option<(DeviceAddress, SensorReading)>)
    ensures
        r == event_reading(*event, bytes_of(*manufacturer_data)),
{
    match event_address(event) {
        Some(a) => match manufacturer_data {
            Some(d) => match parse_manufacturer_data(d) {
                Some(reading) => Some((a, reading)),
                None => None,
            },
            None => None,
        },
        None => None,
    }
}

} // verus!
