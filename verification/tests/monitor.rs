use battery_alert::charge::Charge;
use battery_alert::condition::{AlertCondition, PowerState, Reading};
use battery_alert::event::AlertEvent;
use battery_alert::monitor::{
    LoopAction, MonitorError, MonitorState, PollOutcome, Recovery, POLL_INTERVAL_SECS,
};

fn reading(state: PowerState, percent: f64) -> Reading {
    Reading::new(state, Charge::from_bits(percent.to_bits()))
}

fn overcooked() -> Reading {
    reading(PowerState::Charging, 80.0)
}

fn low() -> Reading {
    reading(PowerState::Discharging, 20.0)
}

#[test]
fn monitoring_starts_clear_and_silent() {
    let state = MonitorState::new();
    assert_eq!(state.last_condition, AlertCondition::Clear);
    assert!(!state.is_playing);
}

#[test]
fn overcharge_raises_one_alert_with_the_rounded_charge() {
    let mut state = MonitorState::new();
    let alert = state.observe(&reading(PowerState::Charging, 75.0));
    assert_eq!(state.last_condition, AlertCondition::OvercookedCharging);
    let event = alert.expect("a first overcharge raises an alert");
    assert_eq!(event.title, "Battery Alert");
    assert!(event.message.contains("75%"));
    assert_eq!(event.message, "⚠️ Unplug your laptop! Battery is at 75% while charging.");
    assert!(state.observe(&reading(PowerState::Charging, 75.0)).is_none());
}

#[test]
fn low_charge_alerts_on_the_first_poll_only() {
    let mut state = MonitorState::new();
    let first = state.observe(&reading(PowerState::Discharging, 25.0));
    let event = first.expect("a first low charge raises an alert");
    assert_eq!(event.title, "Battery Alert");
    assert_eq!(event.message, "⚠️ Plug in your laptop! Battery is at 25% and discharging.");
    assert_eq!(state.last_condition, AlertCondition::LowDischarging);
    let second = state.observe(&reading(PowerState::Discharging, 20.0));
    assert!(second.is_none());
    assert_eq!(state.last_condition, AlertCondition::LowDischarging);
}

#[test]
fn a_clear_reading_raises_nothing_and_is_remembered() {
    let mut state = MonitorState::new();
    assert!(state.observe(&reading(PowerState::Charging, 50.0)).is_none());
    assert_eq!(state.last_condition, AlertCondition::Clear);

    let mut state = MonitorState {
        last_condition: AlertCondition::OvercookedCharging,
        is_playing: false,
    };
    assert!(state.observe(&reading(PowerState::Charging, 50.0)).is_none());
    assert_eq!(state.last_condition, AlertCondition::Clear);
}

#[test]
fn alerts_follow_changes_of_condition() {
    let mut state = MonitorState::new();
    let readings = vec![overcooked(), overcooked(), overcooked(), low(), low(), overcooked()];
    let mut raised = Vec::new();
    for (position, reading) in readings.iter().enumerate() {
        if state.observe(reading).is_some() {
            raised.push(position);
        }
    }
    assert_eq!(raised, vec![0, 3, 5]);
}

#[test]
fn a_poll_pass_raises_three_alerts_for_six_readings() {
    let mut state = MonitorState::new();
    let readings = vec![overcooked(), overcooked(), overcooked(), low(), low(), overcooked()];
    let alerts = state.poll_pass(&readings);
    assert_eq!(alerts.len(), 3);
    assert_eq!(alerts[0].message, "⚠️ Unplug your laptop! Battery is at 80% while charging.");
    assert_eq!(alerts[1].message, "⚠️ Plug in your laptop! Battery is at 20% and discharging.");
    assert_eq!(alerts[2].message, "⚠️ Unplug your laptop! Battery is at 80% while charging.");
    assert_eq!(state.last_condition, AlertCondition::OvercookedCharging);
}

#[test]
fn a_condition_returning_after_a_clear_reading_alerts_again() {
    let mut state = MonitorState::new();
    let readings = vec![low(), reading(PowerState::Discharging, 60.0), low()];
    let alerts = state.poll_pass(&readings);
    assert_eq!(alerts.len(), 2);
    assert_eq!(state.last_condition, AlertCondition::LowDischarging);
}

#[test]
fn an_empty_poll_pass_changes_nothing() {
    let mut state = MonitorState {
        last_condition: AlertCondition::LowDischarging,
        is_playing: true,
    };
    let alerts = state.poll_pass(&Vec::new());
    assert!(alerts.is_empty());
    assert_eq!(state.last_condition, AlertCondition::LowDischarging);
    assert!(state.is_playing);
}

#[test]
fn the_condition_carries_over_between_polls() {
    let mut state = MonitorState::new();
    assert_eq!(state.poll_pass(&vec![low()]).len(), 1);
    assert_eq!(state.poll_pass(&vec![low()]).len(), 0);
    assert_eq!(state.poll_pass(&vec![reading(PowerState::Discharging, 5.0)]).len(), 0);
    assert_eq!(state.poll_pass(&vec![overcooked()]).len(), 1);
}

#[test]
fn observing_leaves_the_busy_flag_alone() {
    let mut state = MonitorState { last_condition: AlertCondition::Clear, is_playing: true };
    let _ = state.observe(&overcooked());
    assert!(state.is_playing);
    let _ = state.poll_pass(&vec![low(), overcooked()]);
    assert!(state.is_playing);
}

#[test]
fn the_message_shows_the_charge_rounded_to_even_on_a_tie() {
    let mut state = MonitorState::new();
    let event = state.observe(&reading(PowerState::Charging, 74.5)).unwrap();
    assert_eq!(event.message, "⚠️ Unplug your laptop! Battery is at 74% while charging.");
    let mut state = MonitorState::new();
    let event = state.observe(&reading(PowerState::Charging, 75.5)).unwrap();
    assert_eq!(event.message, "⚠️ Unplug your laptop! Battery is at 76% while charging.");
    let mut state = MonitorState::new();
    let event = state.observe(&reading(PowerState::Discharging, 30.6)).unwrap();
    assert_eq!(event.message, "⚠️ Plug in your laptop! Battery is at 31% and discharging.");
}

#[test]
fn messages_agree_with_fixed_point_display() {
    for percent in [70.25, 71.5, 99.49, 100.0, 1e6, f64::INFINITY] {
        let mut state = MonitorState::new();
        let event = state.observe(&reading(PowerState::Charging, percent)).unwrap();
        assert_eq!(
            event.message,
            format!("⚠️ Unplug your laptop! Battery is at {:.0}% while charging.", percent)
        );
    }
    for percent in [30.75, 0.5, 0.0, -0.0, -3.5, f64::NEG_INFINITY] {
        let mut state = MonitorState::new();
        let event = state.observe(&reading(PowerState::Discharging, percent)).unwrap();
        assert_eq!(
            event.message,
            format!("⚠️ Plug in your laptop! Battery is at {:.0}% and discharging.", percent)
        );
    }
}

#[test]
fn a_sampled_poll_is_followed_by_its_alerts_and_a_sleep() {
    let mut state = MonitorState::new();
    let plan = state.after_poll(&PollOutcome::Sampled(vec![overcooked(), low()]));
    assert_eq!(POLL_INTERVAL_SECS, 20);
    assert_eq!(plan.len(), 5);
    assert!(matches!(plan[0], LoopAction::PlaySound));
    match &plan[1] {
        LoopAction::Notify(event) => {
            assert_eq!(event.title, "Battery Alert");
            assert_eq!(event.message, "⚠️ Unplug your laptop! Battery is at 80% while charging.");
        }
        other => panic!("expected a notification, found {:?}", other),
    }
    assert!(matches!(plan[2], LoopAction::PlaySound));
    match &plan[3] {
        LoopAction::Notify(event) => {
            assert_eq!(event.message, "⚠️ Plug in your laptop! Battery is at 20% and discharging.");
        }
        other => panic!("expected a notification, found {:?}", other),
    }
    assert!(matches!(plan[4], LoopAction::Sleep(20)));
    assert_eq!(state.last_condition, AlertCondition::LowDischarging);
}

#[test]
fn a_quiet_poll_is_followed_by_the_sleep_alone() {
    let mut state = MonitorState::new();
    let plan = state.after_poll(&PollOutcome::Sampled(vec![reading(PowerState::Charging, 50.0)]));
    assert_eq!(plan.len(), 1);
    assert!(matches!(plan[0], LoopAction::Sleep(20)));
    assert_eq!(state.last_condition, AlertCondition::Clear);
}

#[test]
fn a_failed_poll_is_skipped() {
    for error in [MonitorError::Enumeration, MonitorError::Sample] {
        let mut state = MonitorState {
            last_condition: AlertCondition::OvercookedCharging,
            is_playing: false,
        };
        let plan = state.after_poll(&PollOutcome::Failed(error));
        assert_eq!(plan.len(), 1);
        assert!(matches!(plan[0], LoopAction::Sleep(20)));
        assert_eq!(state.last_condition, AlertCondition::OvercookedCharging);
        assert!(!state.is_playing);
    }
}

#[test]
fn a_notification_copies_as_it_is() {
    let charge = Charge::from_bits(12.0f64.to_bits());
    let event = AlertEvent::for_condition(AlertCondition::LowDischarging, &charge).unwrap();
    assert_eq!(event.clone(), event);
}

#[test]
fn no_failure_ends_the_loop() {
    assert_eq!(MonitorError::Enumeration.recovery(), Recovery::SkipCycle);
    assert_eq!(MonitorError::Sample.recovery(), Recovery::SkipCycle);
    assert_eq!(MonitorError::Playback.recovery(), Recovery::Continue);
    assert_eq!(MonitorError::Notification.recovery(), Recovery::Continue);
}

#[test]
fn a_clear_condition_has_no_notification() {
    let charge = Charge::from_bits(50.0f64.to_bits());
    assert!(AlertEvent::for_condition(AlertCondition::Clear, &charge).is_none());
    let event = AlertEvent::for_condition(AlertCondition::LowDischarging, &charge).unwrap();
    assert_eq!(event.message, "⚠️ Plug in your laptop! Battery is at 50% and discharging.");
}
