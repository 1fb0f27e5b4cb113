use stellar_hash::camera::{key_direction, SteeringKeys};

fn touches(left: bool, right: bool, up: bool, down: bool) -> SteeringKeys {
    SteeringKeys { left, right, up, down }
}

#[test]
fn direction_of_keys() {
    assert_eq!(key_direction(&touches(false, true, false, false)), (1, 0));
    assert_eq!(key_direction(&touches(true, false, false, false)), (-1, 0));
    assert_eq!(key_direction(&touches(false, false, true, false)), (0, 1));
    assert_eq!(key_direction(&touches(false, false, false, true)), (0, -1));
    assert_eq!(key_direction(&touches(true, true, true, true)), (0, 0));
    assert_eq!(key_direction(&touches(false, true, true, false)), (1, 1));
    assert_eq!(key_direction(&touches(false, false, false, false)), (0, 0));
}
