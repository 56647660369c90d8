use vstd::prelude::*;

verus! {

/// The measurements decoded from one advertisement.
///
/// A field is `None` when the tag does not report that quantity; that is not
/// the same as a reading of zero.
#[derive(Clone, Copy, Debug, PartialEq, Eq)]
pub struct SensorReading {
    /// Temperature in millidegrees Celsius.
    pub temperature: Option<i32>,
    /// Relative humidity as the decoder reports it; exposed multiplied by 1e-4.
    pub humidity: Option<u32>,
    /// Pressure in pascals.
    pub pressure: Option<u32>,
    /// Battery potential in millivolts.
    pub battery_potential: Option<u16>,
    /// Movement counter of the tag.
    pub movement_counter: Option<u32>,
    /// Measurement sequence number of the tag.
    pub sequence_number: Option<u32>,
}

/// The six physical quantities that are exposed as metrics.
#[derive(Clone, Copy, Debug, PartialEq, Eq, Structural)]
pub enum Quantity {
    Temperature,
    Humidity,
    Pressure,
    BatteryPotential,
    MovementCounter,
    SequenceNumber,
}

/// The raw figure of quantity `q` in a reading, if the reading carries one.
pub open spec fn value_of(r: SensorReading, q: Quantity) -> Option<i64> {
    match q {
        Quantity::Temperature => match r.temperature {
            Some(v) => Some(v as i64),
            None => None,
        },
        Quantity::Humidity => match r.humidity {
            Some(v) => Some(v as i64),
            None => None,
        },
        Quantity::Pressure => match r.pressure {
            Some(v) => Some(v as i64),
            None => None,
        },
        Quantity::BatteryPotential => match r.battery_potential {
            Some(v) => Some(v as i64),
            None => None,
        },
        Quantity::MovementCounter => match r.movement_counter {
            Some(v) => Some(v as i64),
            None => None,
        },
        Quantity::SequenceNumber => match r.sequence_number {
            Some(v) => Some(v as i64),
            None => None,
        },
    }
}

/// The position of a quantity in the order in which they are exposed.
pub open spec fn quantity_index(q: Quantity) -> int {
    match q {
        Quantity::Temperature => 0,
        Quantity::Humidity => 1,
        Quantity::Pressure => 2,
        Quantity::BatteryPotential => 3,
        Quantity::MovementCounter => 4,
        Quantity::SequenceNumber => 5,
    }
}

/// The number that a raw figure is divided by to give the exposed value.
pub open spec fn divisor_of(q: Quantity) -> u32 {
    match q {
        Quantity::Temperature => 1000,
        Quantity::Humidity => 10000,
        Quantity::Pressure => 1000,
        _ => 1,
    }
}

/// The metric name under which a quantity is exposed.
pub open spec fn metric_name_of(q: Quantity) -> Seq<char> {
    match q {
        Quantity::Temperature => "ruuvi_temperature"@,
        Quantity::Humidity => "ruuvi_humidity"@,
        Quantity::Pressure => "ruuvi_pressure"@,
        Quantity::BatteryPotential => "ruuvi_battery_potential"@,
        Quantity::MovementCounter => "ruuvi_movement_counter"@,
        Quantity::SequenceNumber => "ruuvi_sequence_number"@,
    }
}

impl SensorReading {
    /// A reading that carries no field at all.
    pub fn empty() -> (r: Self)
        ensures
            forall|q: Quantity| value_of(r, q).is_none(),
    {
        SensorReading {
            temperature: None,
            humidity: None,
            pressure: None,
            battery_potential: None,
            movement_counter: None,
            sequence_number: None,
        }
    }

    /// The raw figure of quantity `q`, widened to `i64`.
    pub fn value(&self, q: Quantity) -> (r: Option<i64>)
        ensures
            r == value_of(*self, q),
    {
        match q {
            Quantity::Temperature => match self.temperature {
                Some(v) => Some(v as i64),
                None => None,
            },
            Quantity::Humidity => match self.humidity {
                Some(v) => Some(v as i64),
                None => None,
            },
            Quantity::Pressure => match self.pressure {
                Some(v) => Some(v as i64),
                None => None,
            },
            Quantity::BatteryPotential => match self.battery_potential {
                Some(v) => Some(v as i64),
                None => None,
            },
            Quantity::MovementCounter => match self.movement_counter {
                Some(v) => Some(v as i64),
                None => None,
            },
            Quantity::SequenceNumber => match self.sequence_number {
                Some(v) => Some(v as i64),
                None => None,
            },
        }
    }
}

impl Quantity {
    /// Every quantity, in the order in which they are exposed.
    pub fn all() -> (r: Vec<Quantity>)
        ensures
            r@ == seq![
                Quantity::Temperature,
                Quantity::Humidity,
                Quantity::Pressure,
                Quantity::BatteryPotential,
                Quantity::MovementCounter,
                Quantity::SequenceNumber,
            ],
    {
        vec![
            Quantity::Temperature,
            Quantity::Humidity,
            Quantity::Pressure,
            Quantity::BatteryPotential,
            Quantity::MovementCounter,
            Quantity::SequenceNumber,
        ]
    }

    /// The quantity at position `i` of the exposed order.
    pub fn at(i: usize) -> (r: Quantity)
        requires
            i < 6,
        ensures
            quantity_index(r) == i,
    {
        match i {
            0 => Quantity::Temperature,
            1 => Quantity::Humidity,
            2 => Quantity::Pressure,
            3 => Quantity::BatteryPotential,
            4 => Quantity::MovementCounter,
            _ => Quantity::SequenceNumber,
        }
    }

    /// The exposed value is the raw figure divided by this number.
    pub fn unit_divisor(&self) -> (r: u32)
        ensures
            r == divisor_of(*self),
    {
        match self {
            Quantity::Temperature => 1000,
            Quantity::Humidity => 10000,
            Quantity::Pressure => 1000,
            _ => 1,
        }
    }

    /// Whether the quantity is exposed as an integer gauge.
    pub fn is_integer(&self) -> (r: bool)
        ensures
            r == (*self == Quantity::MovementCounter || *self == Quantity::SequenceNumber),
    {
        match self {
            Quantity::MovementCounter | Quantity::SequenceNumber => true,
            _ => false,
        }
    }

    /// The metric name, e.g. `"ruuvi_temperature"`.
    pub fn metric_name(&self) -> (r: &'static str)
        ensures
            r@ == metric_name_of(*self),
    {
        match self {
            Quantity::Temperature => "ruuvi_temperature",
            Quantity::Humidity => "ruuvi_humidity",
            Quantity::Pressure => "ruuvi_pressure",
            Quantity::BatteryPotential => "ruuvi_battery_potential",
            Quantity::MovementCounter => "ruuvi_movement_counter",
            Quantity::SequenceNumber => "ruuvi_sequence_number",
        }
    }

    /// The help text of the metric.
    pub fn help(&self) -> &'static str {
        match self {
            Quantity::Temperature => "temperature reported by ruuvi sensor",
            Quantity::Humidity => "humidity reported by ruuvi sensor",
            Quantity::Pressure => "pressure reported by ruuvi sensor",
            Quantity::BatteryPotential => "battery_potential reported by ruuvi sensor",
            Quantity::MovementCounter => "movement_counter reported by ruuvi sensor",
            Quantity::SequenceNumber => "sequence_number reported by ruuvi sensor",
        }
    }
}

} // verus!
