use std::cmp::Ordering;

use media_gateway::{F16i, F16u};

#[test]
fn f16u_orders_by_raw_value() {
    assert!(F16u(100) < F16u(250));
    assert!(F16u(250) > F16u(100));
    assert_eq!(F16u(125), F16u(125));
    assert_eq!(F16u(100).partial_cmp(&F16u(100)), Some(Ordering::Equal));
    assert_eq!(F16u(0).cmp(&F16u(1)), Ordering::Less);
}

#[test]
fn f16i_orders_by_raw_value() {
    assert!(F16i(-250) < F16i(-100));
    assert!(F16i(-1) < F16i(0));
    assert!(F16i(99) < F16i(100));
    assert_eq!(F16i(-5), F16i(-5));
    assert_eq!(F16i(3).partial_cmp(&F16i(-3)), Some(Ordering::Greater));
    assert_eq!(F16i(-3).cmp(&F16i(3)), Ordering::Less);
}
