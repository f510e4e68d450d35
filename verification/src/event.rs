//! The notifications that the monitor hands to the alert player and to the
//! notifier.

use vstd::prelude::*;
use vstd::string::*;

use crate::charge::Charge;
use crate::condition::AlertCondition;

verus! {

/// A notification: a title and a message for the desktop.
#[derive(Debug, PartialEq, Eq)]
pub struct AlertEvent {
    pub title: String,
    pub message: String,
}

/// The text of an [`AlertEvent`].
pub struct AlertText {
    pub title: Seq<char>,
    pub message: Seq<char>,
}

impl View for AlertEvent {
    type V = AlertText;

    open spec fn view(&self) -> AlertText {
        AlertText { title: self.title@, message: self.message@ }
    }
}

impl Clone for AlertEvent {
    fn clone(&self) -> (copy: AlertEvent)
        ensures
            copy@ == self@,
    {
        AlertEvent { title: self.title.clone(), message: self.message.clone() }
    }
}

/// The message for a condition met at `charge`: what to do, and the charge
/// rounded to a whole percent. Nothing is said of a clear condition.
pub open spec fn alert_message(condition: AlertCondition, charge: Charge) -> Seq<char> {
    match condition {
        AlertCondition::OvercookedCharging => "⚠️ Unplug your laptop! Battery is at "@
            + charge.rounded_text() + "% while charging."@,
        AlertCondition::LowDischarging => "⚠️ Plug in your laptop! Battery is at "@
            + charge.rounded_text() + "% and discharging."@,
        AlertCondition::Clear => Seq::<char>::empty(),
    }
}

/// The notification for a condition met at `charge`.
pub open spec fn alert_text(condition: AlertCondition, charge: Charge) -> AlertText {
    AlertText { title: "Battery Alert"@, message: alert_message(condition, charge) }
}

/// The notification that tells of an alert sound that could not be played.
pub open spec fn playback_failure_text() -> AlertText {
    AlertText { title: "Error"@, message: "Failed to play alert sound."@ }
}

impl AlertEvent {
    /// The notification for `condition` met at `charge`; none for a clear
    /// condition.
    pub fn for_condition(condition: AlertCondition, charge: &Charge) -> (alert: Option<AlertEvent>)
        ensures
            alert is Some <==> condition != AlertCondition::Clear,
            alert matches Some(event) ==> event@ == alert_text(condition, *charge),
    {
        let (opening, closing) = match condition {
            AlertCondition::Clear => {
                return None;
            },
            AlertCondition::OvercookedCharging => (
                "⚠️ Unplug your laptop! Battery is at ",
                "% while charging.",
            ),
            AlertCondition::LowDischarging => (
                "⚠️ Plug in your laptop! Battery is at ",
                "% and discharging.",
            ),
        };
        let shown = charge.format_rounded();
        let mut message = String::from_str(opening);
        message.append(shown.as_str());
        message.append(closing);
        Some(AlertEvent { title: String::from_str("Battery Alert"), message })
    }

    /// The notification sent when the alert sound could not be started.
    pub fn playback_failure() -> (event: AlertEvent)
        ensures
            event@ == playback_failure_text(),
    {
        AlertEvent {
            title: String::from_str("Error"),
            message: String::from_str("Failed to play alert sound."),
        }
    }
}

} // verus!
