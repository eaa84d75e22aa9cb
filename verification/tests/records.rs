use pontoslib::data::{Parameter, Position, Vessel};

#[test]
fn wire_identifiers_are_total_and_fixed() {
    let cases = [
        (Parameter::Latitude, "positioningsystem_latitude_deg_1"),
        (Parameter::Longitude, "positioningsystem_longitude_deg_1"),
        (Parameter::Speed, "positioningsystem_sog_kn_1"),
        (Parameter::SteeringOrder, "steering_order_deg_1"),
        (Parameter::SteeringAngle, "steering_angle_deg_1"),
        (Parameter::Heading, "positioningsystem_heading_deg_1"),
        (Parameter::Course, "positioningsystem_cog_deg_1"),
        (Parameter::FuelConsumption, "enginemain_fuelcons_lph_1"),
        (Parameter::RudderOrder, "rudder_order_deg_1"),
        (Parameter::RudderAngle, "rudder_angle_deg_1"),
    ];
    for (p, wire) in cases {
        assert_eq!(p.as_str(), wire);
    }
}

#[test]
fn short_names_are_total_and_fixed() {
    let cases = [
        (Parameter::Latitude, "latitude"),
        (Parameter::Longitude, "longitude"),
        (Parameter::Speed, "sog"),
        (Parameter::SteeringOrder, "steering_order"),
        (Parameter::SteeringAngle, "steering_angle"),
        (Parameter::Heading, "heading"),
        (Parameter::Course, "cog"),
        (Parameter::FuelConsumption, "enginemain_fuelcons"),
        (Parameter::RudderOrder, "rudder_order"),
        (Parameter::RudderAngle, "rudder_angle"),
    ];
    for (p, short) in cases {
        assert_eq!(p.as_str_short(), short);
    }
}

#[test]
fn wire_identifiers_are_pairwise_distinct() {
    let all = [
        Parameter::Latitude,
        Parameter::Longitude,
        Parameter::Speed,
        Parameter::SteeringOrder,
        Parameter::SteeringAngle,
        Parameter::Heading,
        Parameter::Course,
        Parameter::FuelConsumption,
        Parameter::RudderOrder,
        Parameter::RudderAngle,
    ];
    for (i, a) in all.iter().enumerate() {
        for (j, b) in all.iter().enumerate() {
            if i != j {
                assert_ne!(a.as_str(), b.as_str());
                assert_ne!(a.as_str_short(), b.as_str_short());
            }
        }
    }
}

#[test]
fn position_new_keeps_its_fields() {
    let p = Position::new(42, 10.5f32.to_bits(), 59.25f32.to_bits());
    assert_eq!(p.time, 42);
    assert_eq!(f32::from_bits(p.longitude), 10.5);
    assert_eq!(f32::from_bits(p.latitude), 59.25);
}

#[test]
fn vessel_id_returns_the_identifier() {
    let v = Vessel { vessel_id: String::from("name_SD401Fredrika") };
    assert_eq!(v.id(), "name_SD401Fredrika");
}
