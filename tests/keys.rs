use scratch_graphics::order_key::{from_order_key, order_key};

fn key(t: f32) -> Option<i64> {
    order_key(t.to_bits())
}

#[test]
fn order_key_follows_number_order() {
    let numbers = [f32::NEG_INFINITY, -1.0e30, -2.5, -1.0, -1.0e-40, 0.0, 1.0e-40, 0.001, 1.0, 2.5, 1.0e30, f32::INFINITY];
    for pair in numbers.windows(2) {
        assert!(key(pair[0]).unwrap() < key(pair[1]).unwrap());
    }
}

#[test]
fn order_key_values() {
    assert_eq!(key(1.0), Some(0x3f80_0000));
    assert_eq!(key(-1.0), Some(-0x3f80_0000));
    assert_eq!(key(f32::INFINITY), Some(0x7f80_0000));
}

#[test]
fn order_key_zeros_share_a_key() {
    assert_eq!(key(0.0), Some(0));
    assert_eq!(key(-0.0), Some(0));
}

#[test]
fn order_key_nan_has_no_key() {
    assert_eq!(key(f32::NAN), None);
    assert_eq!(order_key(0xffc0_0001), None);
}

#[test]
fn from_order_key_round_trips() {
    for t in [f32::NEG_INFINITY, -3.75, -0.001, 0.0, 0.001, 1.0, 4096.5, f32::INFINITY] {
        let k = key(t).unwrap();
        assert_eq!(f32::from_bits(from_order_key(k)), t);
        assert_eq!(from_order_key(k), t.to_bits());
    }
    assert_eq!(from_order_key(0), 0);
}
