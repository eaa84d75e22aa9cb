use pontoslib::data::{FetchError, Parameter, Position, ShipData};
use pontoslib::orchestrator::{
    collect_other_data, collect_position_data, non_positional_parameters, prepare_stream,
};

fn s(time: i64, value: f32) -> ShipData {
    ShipData { time, value: value.to_bits() }
}

fn tagged(p: Parameter, samples: Vec<ShipData>) -> Result<(Parameter, Vec<ShipData>), FetchError> {
    Ok((p, samples))
}

/// A deterministic stand-in for one day's batch of eight fetches, where
/// three parameters recorded nothing.
fn batch_with_three_empty() -> Vec<Result<(Parameter, Vec<ShipData>), FetchError>> {
    vec![
        tagged(Parameter::Speed, vec![s(1, 5.0), s(2, 5.5)]),
        tagged(Parameter::SteeringOrder, vec![]),
        tagged(Parameter::SteeringAngle, vec![s(1, -1.0)]),
        tagged(Parameter::Heading, vec![s(3, 180.0)]),
        tagged(Parameter::Course, vec![]),
        tagged(Parameter::FuelConsumption, vec![s(2, 12.5)]),
        tagged(Parameter::RudderOrder, vec![]),
        tagged(Parameter::RudderAngle, vec![s(9, 3.0)]),
    ]
}

#[test]
fn non_positional_parameters_are_the_eight_in_issuance_order() {
    let ps = non_positional_parameters();
    assert_eq!(
        ps,
        vec![
            Parameter::Speed,
            Parameter::SteeringOrder,
            Parameter::SteeringAngle,
            Parameter::Heading,
            Parameter::Course,
            Parameter::FuelConsumption,
            Parameter::RudderOrder,
            Parameter::RudderAngle,
        ]
    );
}

#[test]
fn prepare_stream_sorts_and_tags() {
    let (p, data) = prepare_stream(Parameter::Speed, vec![s(3, 1.0), s(1, 2.0), s(2, 3.0)]);
    assert_eq!(p, Parameter::Speed);
    assert_eq!(data, vec![s(1, 2.0), s(2, 3.0), s(3, 1.0)]);
}

#[test]
fn prepare_stream_sort_is_stable_on_equal_instants() {
    let (_, data) = prepare_stream(Parameter::Speed, vec![s(2, 9.0), s(1, 1.0), s(1, 2.0)]);
    assert_eq!(data, vec![s(1, 1.0), s(1, 2.0), s(2, 9.0)]);
}

#[test]
fn collect_partitions_empty_streams_with_one_notice_each() {
    let out = collect_other_data(batch_with_three_empty()).unwrap();
    let (empties, non_empty) = out;
    assert_eq!(
        empties,
        vec![Parameter::SteeringOrder, Parameter::Course, Parameter::RudderOrder]
    );
    assert_eq!(non_empty.len(), 5);
    let params: Vec<Parameter> = non_empty.iter().map(|(p, _)| *p).collect();
    assert_eq!(
        params,
        vec![
            Parameter::Speed,
            Parameter::SteeringAngle,
            Parameter::Heading,
            Parameter::FuelConsumption,
            Parameter::RudderAngle,
        ]
    );
    for (_, data) in &non_empty {
        assert!(!data.is_empty());
    }
}

#[test]
fn collect_fails_as_a_whole_on_one_failed_fetch() {
    let mut results = batch_with_three_empty();
    results[4] = Err(FetchError::Transport(String::from("connection reset")));
    let out = collect_other_data(results);
    assert_eq!(out, Err(FetchError::Transport(String::from("connection reset"))));
}

#[test]
fn collect_reports_the_first_of_several_errors() {
    let mut results = batch_with_three_empty();
    results[2] = Err(FetchError::Decode(String::from("bad value")));
    results[6] = Err(FetchError::Transport(String::from("timed out")));
    let out = collect_other_data(results);
    assert_eq!(out, Err(FetchError::Decode(String::from("bad value"))));
}

#[test]
fn collect_of_all_empty_streams_returns_only_notices() {
    let results = vec![
        tagged(Parameter::Speed, vec![]),
        tagged(Parameter::Heading, vec![]),
        tagged(Parameter::Course, vec![]),
    ];
    let (empties, non_empty) = collect_other_data(results).unwrap();
    assert_eq!(empties, vec![Parameter::Speed, Parameter::Heading, Parameter::Course]);
    assert!(non_empty.is_empty());
}

#[test]
fn collect_twice_on_identical_inputs_is_identical() {
    let first = collect_other_data(batch_with_three_empty());
    let second = collect_other_data(batch_with_three_empty());
    assert_eq!(first, second);
}

#[test]
fn collect_keyed_by_parameter_whatever_the_arrival_order() {
    // the same eight results handed over in two different orders: each
    // parameter keeps its own stream
    let forward = collect_other_data(batch_with_three_empty()).unwrap().1;
    let mut reversed_batch = batch_with_three_empty();
    reversed_batch.reverse();
    let reversed = collect_other_data(reversed_batch).unwrap().1;
    assert_eq!(forward.len(), reversed.len());
    for (p, data) in &forward {
        let found = reversed.iter().find(|(q, _)| q == p).unwrap();
        assert_eq!(&found.1, data);
    }
}

#[test]
fn position_fan_in_merges_on_success() {
    let lon = Ok((Parameter::Longitude, vec![s(1, 10.0), s(2, 10.5)]));
    let lat = Ok((Parameter::Latitude, vec![s(2, 59.0), s(3, 59.5)]));
    let out = collect_position_data(lon, lat).unwrap();
    assert_eq!(
        out,
        vec![Position { time: 2, longitude: 10.5f32.to_bits(), latitude: 59.0f32.to_bits() }]
    );
}

#[test]
fn position_fan_in_fails_on_failed_longitude() {
    let lon = Err(FetchError::Config);
    let lat = Ok((Parameter::Latitude, vec![s(1, 59.0)]));
    let out = collect_position_data(lon, lat);
    assert_eq!(out, Err(FetchError::Config));
}

#[test]
fn position_fan_in_fails_on_failed_latitude() {
    let lon = Ok((Parameter::Longitude, vec![s(1, 10.0)]));
    let lat = Err(FetchError::Transport(String::from("no route to host")));
    let out = collect_position_data(lon, lat);
    assert_eq!(out, Err(FetchError::Transport(String::from("no route to host"))));
}
