//! Record model: measured parameters, timestamped samples, merged
//! positions, vessels and the error taxonomy of a fetch batch.

use vstd::prelude::*;

verus! {

/// A measured quantity served by the data hub.
///
/// Every variant maps to exactly one canonical wire identifier (used to
/// filter remote queries) and one short human-readable name (used for file
/// naming and notices); both mappings are total by construction.
#[derive(Clone, Copy, Debug, PartialEq, Eq, Hash, Structural)]
pub enum Parameter {
    Latitude,
    Longitude,
    Speed,
    SteeringOrder,
    SteeringAngle,
    Heading,
    Course,
    FuelConsumption,
    RudderOrder,
    RudderAngle,
}

impl Parameter {
    /// The canonical wire identifier of this parameter.
    pub open spec fn wire_id(self) -> Seq<char> {
        match self {
            Parameter::Latitude => "positioningsystem_latitude_deg_1"@,
            Parameter::Longitude => "positioningsystem_longitude_deg_1"@,
            Parameter::Speed => "positioningsystem_sog_kn_1"@,
            Parameter::SteeringOrder => "steering_order_deg_1"@,
            Parameter::SteeringAngle => "steering_angle_deg_1"@,
            Parameter::Heading => "positioningsystem_heading_deg_1"@,
            Parameter::Course => "positioningsystem_cog_deg_1"@,
            Parameter::FuelConsumption => "enginemain_fuelcons_lph_1"@,
            Parameter::RudderOrder => "rudder_order_deg_1"@,
            Parameter::RudderAngle => "rudder_angle_deg_1"@,
        }
    }

    /// The short human-readable name of this parameter.
    pub open spec fn short_name(self) -> Seq<char> {
        match self {
            Parameter::Latitude => "latitude"@,
            Parameter::Longitude => "longitude"@,
            Parameter::Speed => "sog"@,
            Parameter::SteeringOrder => "steering_order"@,
            Parameter::SteeringAngle => "steering_angle"@,
            Parameter::Heading => "heading"@,
            Parameter::Course => "cog"@,
            Parameter::FuelConsumption => "enginemain_fuelcons"@,
            Parameter::RudderOrder => "rudder_order"@,
            Parameter::RudderAngle => "rudder_angle"@,
        }
    }

    /// The wire identifier used to filter remote queries for this parameter.
    pub fn as_str(&self) -> (r: &str)
        ensures
            r@ == self.wire_id(),
    {
        match self {
            Parameter::Latitude => "positioningsystem_latitude_deg_1",
            Parameter::Longitude => "positioningsystem_longitude_deg_1",
            Parameter::Speed => "positioningsystem_sog_kn_1",
            Parameter::SteeringOrder => "steering_order_deg_1",
            Parameter::SteeringAngle => "steering_angle_deg_1",
            Parameter::Heading => "positioningsystem_heading_deg_1",
            Parameter::Course => "positioningsystem_cog_deg_1",
            Parameter::FuelConsumption => "enginemain_fuelcons_lph_1",
            Parameter::RudderOrder => "rudder_order_deg_1",
            Parameter::RudderAngle => "rudder_angle_deg_1",
        }
    }

    /// The short name used for file naming and empty-stream notices.
    pub fn as_str_short(&self) -> (r: &str)
        ensures
            r@ == self.short_name(),
    {
        match self {
            Parameter::Latitude => "latitude",
            Parameter::Longitude => "longitude",
            Parameter::Speed => "sog",
            Parameter::SteeringOrder => "steering_order",
            Parameter::SteeringAngle => "steering_angle",
            Parameter::Heading => "heading",
            Parameter::Course => "cog",
            Parameter::FuelConsumption => "enginemain_fuelcons",
            Parameter::RudderOrder => "rudder_order",
            Parameter::RudderAngle => "rudder_angle",
        }
    }
}

/// The parameter mappings are total by construction and injective: distinct
/// parameters never share a wire identifier nor a short name, so
/// per-parameter queries and per-parameter file names cannot collide.
pub proof fn lemma_parameter_names_injective(p: Parameter, q: Parameter)
    requires
        p != q,
    ensures
        p.wire_id() != q.wire_id(),
        p.short_name() != q.short_name(),
{
    reveal_strlit("positioningsystem_latitude_deg_1");
    reveal_strlit("positioningsystem_longitude_deg_1");
    reveal_strlit("positioningsystem_sog_kn_1");
    reveal_strlit("steering_order_deg_1");
    reveal_strlit("steering_angle_deg_1");
    reveal_strlit("positioningsystem_heading_deg_1");
    reveal_strlit("positioningsystem_cog_deg_1");
    reveal_strlit("enginemain_fuelcons_lph_1");
    reveal_strlit("rudder_order_deg_1");
    reveal_strlit("rudder_angle_deg_1");
    reveal_strlit("latitude");
    reveal_strlit("longitude");
    reveal_strlit("sog");
    reveal_strlit("steering_order");
    reveal_strlit("steering_angle");
    reveal_strlit("heading");
    reveal_strlit("cog");
    reveal_strlit("enginemain_fuelcons");
    reveal_strlit("rudder_order");
    reveal_strlit("rudder_angle");
    // names of distinct length differ by it
    assert("positioningsystem_latitude_deg_1"@.len() == 32);
    assert("positioningsystem_longitude_deg_1"@.len() == 33);
    assert("positioningsystem_sog_kn_1"@.len() == 26);
    assert("steering_order_deg_1"@.len() == 20);
    assert("steering_angle_deg_1"@.len() == 20);
    assert("positioningsystem_heading_deg_1"@.len() == 31);
    assert("positioningsystem_cog_deg_1"@.len() == 27);
    assert("enginemain_fuelcons_lph_1"@.len() == 25);
    assert("rudder_order_deg_1"@.len() == 18);
    assert("rudder_angle_deg_1"@.len() == 18);
    assert("latitude"@.len() == 8);
    assert("longitude"@.len() == 9);
    assert("sog"@.len() == 3);
    assert("steering_order"@.len() == 14);
    assert("steering_angle"@.len() == 14);
    assert("heading"@.len() == 7);
    assert("cog"@.len() == 3);
    assert("enginemain_fuelcons"@.len() == 19);
    assert("rudder_order"@.len() == 12);
    assert("rudder_angle"@.len() == 12);
    // names of equal length differ at a character
    assert("steering_order_deg_1"@[9] != "steering_angle_deg_1"@[9]);
    assert("rudder_order_deg_1"@[7] != "rudder_angle_deg_1"@[7]);
    assert("sog"@[0] != "cog"@[0]);
    assert("steering_order"@[9] != "steering_angle"@[9]);
    assert("rudder_order"@[7] != "rudder_angle"@[7]);
}

/// One timestamped scalar sample of a parameter stream.
///
/// `time` is a UTC instant in microseconds since the Unix epoch; `value`
/// holds the bit pattern of the measured IEEE 754 single-precision scalar,
/// which this library carries through untouched (it never interprets the
/// measured magnitude, only the timestamp).
#[derive(Clone, Copy, Debug, PartialEq, Eq, Structural)]
pub struct ShipData {
    pub time: i64,
    pub value: u32,
}

/// A merged position sample: a longitude and a latitude measured at the
/// exact same instant. The coordinate fields hold single-precision bit
/// patterns, as in [`ShipData`].
#[derive(Clone, Copy, Debug, PartialEq, Eq, Structural)]
pub struct Position {
    pub time: i64,
    pub longitude: u32,
    pub latitude: u32,
}

impl Position {
    /// Pairs a longitude and a latitude value measured at `time`.
    pub fn new(time: i64, longitude: u32, latitude: u32) -> (p: Position)
        ensures
            p == (Position { time, longitude, latitude }),
    {
        Position { time, longitude, latitude }
    }
}

/// A vessel known to the data hub, an opaque identifier with no further
/// structure assumed.
#[derive(Clone, Debug, PartialEq, Eq)]
pub struct Vessel {
    pub vessel_id: String,
}

impl Vessel {
    /// The identifier under which the data hub lists this vessel.
    pub fn id(&self) -> (r: &str)
        ensures
            r@ == self.vessel_id@,
    {
        self.vessel_id.as_str()
    }
}

/// Why a fetch batch failed. Every variant is fatal: a batch either yields
/// all of its streams or none.
#[derive(Clone, Debug, PartialEq, Eq)]
pub enum FetchError {
    /// The authentication credential was missing; surfaced before any
    /// network call.
    Config,
    /// A network or HTTP failure on a single fetch; aborts the whole batch.
    Transport(String),
    /// A response body that does not match the expected sample schema.
    Decode(String),
}

} // verus!
