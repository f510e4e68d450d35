use battery_alert::charge::Charge;
use battery_alert::condition::{
    classify, AlertCondition, PowerState, Reading, LOW_THRESHOLD, OVERCHARGE_THRESHOLD,
};

fn charge(percent: f64) -> Charge {
    Charge::from_bits(percent.to_bits())
}

#[test]
fn thresholds_are_seventy_and_thirty_one() {
    assert_eq!(OVERCHARGE_THRESHOLD, 70);
    assert_eq!(LOW_THRESHOLD, 31);
}

#[test]
fn charging_above_seventy_is_overcooked() {
    assert_eq!(classify(PowerState::Charging, charge(75.0)), AlertCondition::OvercookedCharging);
    assert_eq!(classify(PowerState::Charging, charge(70.5)), AlertCondition::OvercookedCharging);
    assert_eq!(classify(PowerState::Charging, charge(100.0)), AlertCondition::OvercookedCharging);
    assert_eq!(
        classify(PowerState::Charging, charge(70.00000000000001)),
        AlertCondition::OvercookedCharging
    );
}

#[test]
fn charging_at_exactly_seventy_is_clear() {
    assert_eq!(classify(PowerState::Charging, charge(70.0)), AlertCondition::Clear);
}

#[test]
fn charging_at_or_below_seventy_is_clear() {
    assert_eq!(classify(PowerState::Charging, charge(69.99999999999999)), AlertCondition::Clear);
    assert_eq!(classify(PowerState::Charging, charge(50.0)), AlertCondition::Clear);
    assert_eq!(classify(PowerState::Charging, charge(25.0)), AlertCondition::Clear);
    assert_eq!(classify(PowerState::Charging, charge(0.0)), AlertCondition::Clear);
    assert_eq!(classify(PowerState::Charging, charge(-5.0)), AlertCondition::Clear);
}

#[test]
fn discharging_below_thirty_one_is_low() {
    assert_eq!(classify(PowerState::Discharging, charge(25.0)), AlertCondition::LowDischarging);
    assert_eq!(classify(PowerState::Discharging, charge(30.5)), AlertCondition::LowDischarging);
    assert_eq!(classify(PowerState::Discharging, charge(0.0)), AlertCondition::LowDischarging);
    assert_eq!(
        classify(PowerState::Discharging, charge(30.999999999999996)),
        AlertCondition::LowDischarging
    );
}

#[test]
fn discharging_at_exactly_thirty_one_is_clear() {
    assert_eq!(classify(PowerState::Discharging, charge(31.0)), AlertCondition::Clear);
}

#[test]
fn discharging_at_or_above_thirty_one_is_clear() {
    assert_eq!(classify(PowerState::Discharging, charge(31.000000000000004)), AlertCondition::Clear);
    assert_eq!(classify(PowerState::Discharging, charge(50.0)), AlertCondition::Clear);
    assert_eq!(classify(PowerState::Discharging, charge(75.0)), AlertCondition::Clear);
    assert_eq!(classify(PowerState::Discharging, charge(100.0)), AlertCondition::Clear);
}

#[test]
fn other_states_are_always_clear() {
    for percent in [0.0, 25.0, 31.0, 50.0, 70.0, 75.0, 100.0] {
        assert_eq!(classify(PowerState::Other, charge(percent)), AlertCondition::Clear);
    }
}

#[test]
fn not_a_number_is_clear_in_every_state() {
    for state in [PowerState::Charging, PowerState::Discharging, PowerState::Other] {
        assert_eq!(classify(state, charge(f64::NAN)), AlertCondition::Clear);
    }
}

#[test]
fn infinite_charges_fall_on_their_side() {
    assert_eq!(
        classify(PowerState::Charging, charge(f64::INFINITY)),
        AlertCondition::OvercookedCharging
    );
    assert_eq!(classify(PowerState::Charging, charge(f64::NEG_INFINITY)), AlertCondition::Clear);
    assert_eq!(
        classify(PowerState::Discharging, charge(f64::NEG_INFINITY)),
        AlertCondition::LowDischarging
    );
    assert_eq!(classify(PowerState::Discharging, charge(f64::INFINITY)), AlertCondition::Clear);
}

#[test]
fn classification_agrees_with_the_comparison_of_numbers() {
    let mut percent = -10.0;
    while percent <= 110.0 {
        let expected_charging = if percent > 70.0 {
            AlertCondition::OvercookedCharging
        } else {
            AlertCondition::Clear
        };
        let expected_discharging = if percent < 31.0 {
            AlertCondition::LowDischarging
        } else {
            AlertCondition::Clear
        };
        assert_eq!(classify(PowerState::Charging, charge(percent)), expected_charging);
        assert_eq!(classify(PowerState::Discharging, charge(percent)), expected_discharging);
        percent += 0.125;
    }
}

#[test]
fn a_reading_classifies_as_its_parts_do() {
    let reading = Reading::new(PowerState::Charging, charge(75.0));
    assert_eq!(reading.state, PowerState::Charging);
    assert_eq!(reading.charge.to_bits(), 75.0f64.to_bits());
    assert_eq!(reading.classify(), AlertCondition::OvercookedCharging);
    let reading = Reading::new(PowerState::Discharging, charge(75.0));
    assert_eq!(reading.classify(), AlertCondition::Clear);
}
