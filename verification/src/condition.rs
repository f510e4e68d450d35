//! Readings of the power source and the alert condition that each falls
//! under.

use vstd::prelude::*;

use crate::charge::Charge;

verus! {

/// A charging battery is overcooked above this many percent.
pub const OVERCHARGE_THRESHOLD: u64 = 70;

/// A discharging battery is low below this many percent.
pub const LOW_THRESHOLD: u64 = 31;

/// What the power supply is doing to the battery.
#[derive(Clone, Copy, Debug, PartialEq, Eq, Structural)]
pub enum PowerState {
    Charging,
    Discharging,
    /// Full, empty, unknown, or not charging.
    Other,
}

/// The outcome of classifying one reading; the unit in which alerts are
/// deduplicated.
#[derive(Clone, Copy, Debug, PartialEq, Eq, Structural)]
pub enum AlertCondition {
    /// Nothing to report.
    Clear,
    /// Charging with the charge above the overcharge threshold.
    OvercookedCharging,
    /// Discharging with the charge below the low threshold.
    LowDischarging,
}

/// One sample of a battery: what the supply does and how full the battery
/// is.
#[derive(Clone, Copy, Debug)]
pub struct Reading {
    pub state: PowerState,
    pub charge: Charge,
}

/// The alert condition of a power state and a charge.
pub open spec fn condition_of(state: PowerState, charge: Charge) -> AlertCondition {
    if state == PowerState::Charging && charge.above(OVERCHARGE_THRESHOLD as nat) {
        AlertCondition::OvercookedCharging
    } else if state == PowerState::Discharging && charge.below(LOW_THRESHOLD as nat) {
        AlertCondition::LowDischarging
    } else {
        AlertCondition::Clear
    }
}

/// Classifies a power state and a charge. Both thresholds are strict: a
/// charge of exactly 70 percent while charging, or of exactly 31 percent
/// while discharging, is no alert condition.
pub fn classify(state: PowerState, charge: Charge) -> (condition: AlertCondition)
    ensures
        condition == condition_of(state, charge),
        condition == AlertCondition::OvercookedCharging <==> state == PowerState::Charging
            && charge.above(70),
        condition == AlertCondition::LowDischarging <==> state == PowerState::Discharging
            && charge.below(31),
{
    match state {
        PowerState::Charging => {
            if charge.is_above(OVERCHARGE_THRESHOLD) {
                AlertCondition::OvercookedCharging
            } else {
                AlertCondition::Clear
            }
        },
        PowerState::Discharging => {
            if charge.is_below(LOW_THRESHOLD) {
                AlertCondition::LowDischarging
            } else {
                AlertCondition::Clear
            }
        },
        PowerState::Other => AlertCondition::Clear,
    }
}

impl Reading {
    /// The alert condition that the reading falls under.
    pub open spec fn condition(self) -> AlertCondition {
        condition_of(self.state, self.charge)
    }

    /// A reading of the given state and charge.
    pub fn new(state: PowerState, charge: Charge) -> (reading: Reading)
        ensures
            reading.state == state,
            reading.charge == charge,
    {
        Reading { state, charge }
    }

    /// Classifies the reading.
    pub fn classify(&self) -> (condition: AlertCondition)
        ensures
            condition == self.condition(),
    {
        classify(self.state, self.charge)
    }
}

} // verus!
