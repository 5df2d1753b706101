use gpioline::line::{AbiVersion, LineConfig, Value};

#[test]
fn a_value_is_a_digit_and_a_level() {
    assert_eq!(Value::Inactive.as_u8(), 0);
    assert_eq!(Value::Active.as_u8(), 1);
    assert!(Value::Active.is_active());
    assert!(!Value::Inactive.is_active());
    assert_eq!(Value::from_level(true), Value::Active);
    assert_eq!(Value::from_level(false), Value::Inactive);
    assert_eq!(Value::Active.not(), Value::Inactive);
    assert_eq!(Value::Inactive.not(), Value::Active);
}

#[test]
fn polarity_turns_values_into_levels_and_back() {
    assert_eq!(Value::from_physical(true, false), Value::Active);
    assert_eq!(Value::from_physical(false, false), Value::Inactive);
    assert_eq!(Value::from_physical(true, true), Value::Inactive);
    assert_eq!(Value::from_physical(false, true), Value::Active);
    assert!(Value::Active.to_physical(false));
    assert!(!Value::Active.to_physical(true));
    assert!(!Value::Inactive.to_physical(false));
    assert!(Value::Inactive.to_physical(true));
    for v in [Value::Active, Value::Inactive] {
        for active_low in [false, true] {
            assert_eq!(Value::from_physical(v.to_physical(active_low), active_low), v);
        }
        assert_ne!(Value::from_level(v.to_physical(true)), v);
    }
}

#[test]
fn what_is_asked_of_the_kernel_keeps_the_polarity_back() {
    let mut c = LineConfig::new();
    c.as_output(Value::Active);
    c.as_active_low();
    let raw = c.raw();
    assert!(!raw.active_low);
    assert_eq!(raw.value, Value::Inactive);
    assert_eq!(raw.direction, c.direction);
    c.as_active_high();
    assert_eq!(c.raw(), c);
    assert!(c.is_output());
    c.as_is();
    assert!(!c.is_output());
    assert_eq!(c.direction, None);
}

#[test]
fn both_generations_take_64_lines() {
    assert_eq!(AbiVersion::V1.lines_max(), 64);
    assert_eq!(AbiVersion::V2.lines_max(), 64);
}
