use pontoslib::data::{Position, ShipData};
use pontoslib::merge::pair_longitude_latitude;

fn s(time: i64, value: f32) -> ShipData {
    ShipData { time, value: value.to_bits() }
}

fn p(time: i64, longitude: f32, latitude: f32) -> Position {
    Position { time, longitude: longitude.to_bits(), latitude: latitude.to_bits() }
}

#[test]
fn merge_pairs_shared_timestamps_in_order() {
    let a = vec![s(1, 10.0), s(2, 10.5), s(3, 11.0)];
    let b = vec![s(1, 59.0), s(3, 59.5)];
    let out = pair_longitude_latitude(a, b);
    assert_eq!(out, vec![p(1, 10.0, 59.0), p(3, 11.0, 59.5)]);
}

#[test]
fn merge_empty_longitude_gives_empty() {
    let a: Vec<ShipData> = vec![];
    let b = vec![s(1, 59.0), s(2, 59.5)];
    let out = pair_longitude_latitude(a, b);
    assert_eq!(out, vec![]);
}

#[test]
fn merge_empty_latitude_gives_empty() {
    let a = vec![s(1, 10.0), s(2, 10.5)];
    let b: Vec<ShipData> = vec![];
    let out = pair_longitude_latitude(a, b);
    assert_eq!(out, vec![]);
}

#[test]
fn merge_both_empty_gives_empty() {
    let out = pair_longitude_latitude(vec![], vec![]);
    assert_eq!(out, vec![]);
}

#[test]
fn merge_no_shared_timestamps_gives_empty() {
    let a = vec![s(1, 10.0), s(3, 10.5), s(5, 11.0)];
    let b = vec![s(2, 59.0), s(4, 59.5), s(6, 60.0)];
    let out = pair_longitude_latitude(a, b);
    assert_eq!(out, vec![]);
}

#[test]
fn merge_drops_unmatched_tails() {
    let a = vec![s(1, 10.0), s(2, 10.5), s(7, 11.0), s(9, 11.5)];
    let b = vec![s(2, 59.0), s(3, 59.5)];
    let out = pair_longitude_latitude(a, b);
    assert_eq!(out, vec![p(2, 10.5, 59.0)]);
}

#[test]
fn merge_duplicate_instants_pair_in_arrival_order() {
    // a noisy sensor may emit two samples at one instant: each occurrence
    // pairs with the corresponding occurrence on the other side
    let a = vec![s(1, 10.0), s(1, 10.1), s(2, 10.2)];
    let b = vec![s(1, 59.0), s(1, 59.1)];
    let out = pair_longitude_latitude(a, b);
    assert_eq!(out, vec![p(1, 10.0, 59.0), p(1, 10.1, 59.1)]);
}

#[test]
fn merge_duplicate_on_one_side_matches_once() {
    let a = vec![s(1, 10.0), s(1, 10.1)];
    let b = vec![s(1, 59.0), s(2, 59.5)];
    let out = pair_longitude_latitude(a, b);
    assert_eq!(out, vec![p(1, 10.0, 59.0)]);
}

#[test]
fn merge_output_is_strictly_ascending() {
    let a = vec![s(1, 1.0), s(2, 2.0), s(3, 3.0), s(4, 4.0)];
    let b = vec![s(2, 8.0), s(3, 9.0), s(4, 10.0), s(5, 11.0)];
    let out = pair_longitude_latitude(a, b);
    assert_eq!(out.len(), 3);
    for w in out.windows(2) {
        assert!(w[0].time < w[1].time);
    }
}
