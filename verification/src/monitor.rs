//! The monitor's memory between polls and the decisions of one poll.
//!
//! An alert is raised on a change of condition, never again while the
//! condition lasts. The monitor itself does no sampling, sounding or
//! sleeping: it is told what a poll brought and answers with what is to be
//! done.

use vstd::prelude::*;

use crate::condition::{AlertCondition, Reading};
use crate::event::{alert_text, AlertEvent, AlertText};

verus! {

/// Seconds between the end of one poll and the start of the next.
pub const POLL_INTERVAL_SECS: u64 = 20;

/// What the monitor remembers from one iteration to the next.
#[derive(Clone, Copy, Debug, PartialEq, Eq, Structural)]
pub struct MonitorState {
    /// The condition of the reading classified last.
    pub last_condition: AlertCondition,
    /// An alert sound has been started and has not ended yet.
    pub is_playing: bool,
}

/// The kinds of failure that the monitor meets.
#[derive(Clone, Copy, Debug, PartialEq, Eq, Structural)]
pub enum MonitorError {
    /// The battery devices could not be listed.
    Enumeration,
    /// A battery device could not be read.
    Sample,
    /// The alert sound could not be started.
    Playback,
    /// The desktop did not take a notification.
    Notification,
}

/// How the loop goes on after a failure. No failure ends it.
#[derive(Clone, Copy, Debug, PartialEq, Eq, Structural)]
pub enum Recovery {
    /// Give up this poll, sleep, and poll again.
    SkipCycle,
    /// Report the failure and go on with the current poll.
    Continue,
}

/// What one poll of the power source brought.
#[derive(Debug)]
pub enum PollOutcome {
    /// A reading of every battery device, in the order of enumeration.
    Sampled(Vec<Reading>),
    /// The poll failed.
    Failed(MonitorError),
}

/// One thing for the loop to do. The loop does them one after the other
/// and waits for each to end.
#[derive(Debug)]
pub enum LoopAction {
    /// Ask the alert player for the sound.
    PlaySound,
    /// Send the notification to the desktop.
    Notify(AlertEvent),
    /// Sleep for this many seconds, then poll again.
    Sleep(u64),
}

/// What a [`LoopAction`] asks for.
pub enum LoopStep {
    PlaySound,
    Notify(AlertText),
    Sleep(u64),
}

impl View for LoopAction {
    type V = LoopStep;

    open spec fn view(&self) -> LoopStep {
        match self {
            LoopAction::PlaySound => LoopStep::PlaySound,
            LoopAction::Notify(event) => LoopStep::Notify(event@),
            LoopAction::Sleep(secs) => LoopStep::Sleep(*secs),
        }
    }
}

/// What a sequence of actions asks for.
pub open spec fn steps(actions: Seq<LoopAction>) -> Seq<LoopStep> {
    actions.map_values(|action: LoopAction| action@)
}

/// The actions that raise `alerts`, without the sleep that ends the plan:
/// for each alert in order the sound first, the notification second.
pub open spec fn raising(alerts: Seq<AlertText>) -> Seq<LoopStep> {
    Seq::new(
        2 * alerts.len(),
        |i: int|
            if i % 2 == 0 {
                LoopStep::PlaySound
            } else {
                LoopStep::Notify(alerts[i / 2])
            },
    )
}

/// What the loop does after a poll that raised `alerts`: it raises each of
/// them, then sleeps for the poll interval.
pub open spec fn plan_of(alerts: Seq<AlertText>) -> Seq<LoopStep> {
    raising(alerts).push(LoopStep::Sleep(POLL_INTERVAL_SECS))
}

/// The texts of a sequence of notifications.
pub open spec fn texts(events: Seq<AlertEvent>) -> Seq<AlertText> {
    events.map_values(|event: AlertEvent| event@)
}

/// An alert is due where the condition has changed and is not clear.
pub open spec fn alert_due(last: AlertCondition, current: AlertCondition) -> bool {
    current != last && current != AlertCondition::Clear
}

/// The condition that the monitor remembers after `readings`, having
/// remembered `initial` before.
pub open spec fn condition_after(initial: AlertCondition, readings: Seq<Reading>) -> AlertCondition {
    if readings.len() == 0 {
        initial
    } else {
        readings.last().condition()
    }
}

/// The notification for the reading at `index`.
pub open spec fn alert_at(readings: Seq<Reading>, index: int) -> AlertText {
    alert_text(readings[index].condition(), readings[index].charge)
}

/// The alerts raised while `readings` are observed one after the other by a
/// monitor that remembered `initial`.
pub open spec fn alerts_of(initial: AlertCondition, readings: Seq<Reading>) -> Seq<AlertText>
    decreases readings.len(),
{
    if readings.len() == 0 {
        Seq::empty()
    } else {
        let earlier = readings.drop_last();
        let raised = alerts_of(initial, earlier);
        if alert_due(condition_after(initial, earlier), readings.last().condition()) {
            raised.push(alert_at(readings, readings.len() - 1))
        } else {
            raised
        }
    }
}

/// The condition that the reading at `index` is compared with: the one
/// remembered at the start for the first reading, that of the reading just
/// before for every other.
pub open spec fn condition_before(
    initial: AlertCondition,
    readings: Seq<Reading>,
    index: int,
) -> AlertCondition {
    if index == 0 {
        initial
    } else {
        readings[index - 1].condition()
    }
}

/// The reading at `index` raises an alert: its condition is not clear and
/// differs from the one it is compared with.
pub open spec fn raises_at(initial: AlertCondition, readings: Seq<Reading>, index: int) -> bool {
    &&& 0 <= index < readings.len()
    &&& alert_due(condition_before(initial, readings, index), readings[index].condition())
}

/// The positions in `readings` that raise an alert, in ascending order.
pub open spec fn alert_positions(initial: AlertCondition, readings: Seq<Reading>) -> Seq<int> {
    Seq::new(readings.len(), |index: int| index).filter(
        |index: int| raises_at(initial, readings, index),
    )
}

/// How the loop recovers from a failure of the given kind.
pub open spec fn recovery_of(error: MonitorError) -> Recovery {
    match error {
        MonitorError::Enumeration | MonitorError::Sample => Recovery::SkipCycle,
        MonitorError::Playback | MonitorError::Notification => Recovery::Continue,
    }
}

impl MonitorError {
    /// How the loop recovers from this failure: a poll that cannot be
    /// completed is skipped, a failed sound or notification is reported and
    /// passed over.
    pub fn recovery(&self) -> (recovery: Recovery)
        ensures
            recovery == recovery_of(*self),
    {
        match self {
            MonitorError::Enumeration | MonitorError::Sample => Recovery::SkipCycle,
            MonitorError::Playback | MonitorError::Notification => Recovery::Continue,
        }
    }
}

impl MonitorState {
    /// The state at the start of monitoring: no condition seen, no sound
    /// playing.
    pub fn new() -> (state: MonitorState)
        ensures
            state.last_condition == AlertCondition::Clear,
            !state.is_playing,
    {
        MonitorState { last_condition: AlertCondition::Clear, is_playing: false }
    }

    /// Takes in one reading. The monitor remembers its condition, and hands
    /// back the alert to raise where that condition differs from the one
    /// remembered before and is not clear.
    pub fn observe(&mut self, reading: &Reading) -> (alert: Option<AlertEvent>)
        ensures
            final(self).last_condition == reading.condition(),
            final(self).is_playing == old(self).is_playing,
            alert is Some <==> alert_due(old(self).last_condition, reading.condition()),
            alert matches Some(event) ==> event@ == alert_text(
                reading.condition(),
                reading.charge,
            ),
    {
        let condition = reading.classify();
        if condition == self.last_condition {
            return None;
        }
        self.last_condition = condition;
        AlertEvent::for_condition(condition, &reading.charge)
    }

    /// Takes in the readings of one poll, in order, and hands back the
    /// alerts to raise, in order.
    pub fn poll_pass(&mut self, readings: &Vec<Reading>) -> (alerts: Vec<AlertEvent>)
        ensures
            final(self).last_condition == condition_after(old(self).last_condition, readings@),
            final(self).is_playing == old(self).is_playing,
            texts(alerts@) == alerts_of(old(self).last_condition, readings@),
    {
        let ghost initial = self.last_condition;
        let ghost playing = self.is_playing;
        let mut alerts: Vec<AlertEvent> = Vec::new();
        let mut index: usize = 0;
        assert(texts(alerts@) =~= alerts_of(initial, readings@.take(0)));
        while index < readings.len()
            invariant
                index <= readings@.len(),
                self.is_playing == playing,
                self.last_condition == condition_after(initial, readings@.take(index as int)),
                texts(alerts@) == alerts_of(initial, readings@.take(index as int)),
            decreases readings@.len() - index,
        {
            let ghost seen = readings@.take(index as int);
            let ghost raised = alerts@;
            let alert = self.observe(&readings[index]);
            proof {
                let longer = readings@.take(index + 1);
                assert(longer.drop_last() =~= seen);
                assert(longer.last() == readings@[index as int]);
            }
            match alert {
                Some(event) => {
                    alerts.push(event);
                    assert(texts(alerts@) =~= texts(raised).push(event@));
                },
                None => {},
            }
            index = index + 1;
        }
        assert(readings@.take(index as int) =~= readings@);
        alerts
    }

    /// Decides what follows a poll. Readings are taken in as by
    /// [`MonitorState::poll_pass`] and their alerts raised; a failed poll
    /// changes nothing and raises nothing. Either way the plan ends with the
    /// sleep before the next poll.
    pub fn after_poll(&mut self, outcome: &PollOutcome) -> (plan: Vec<LoopAction>)
        ensures
            final(self).is_playing == old(self).is_playing,
            match outcome {
                PollOutcome::Sampled(readings) => {
                    &&& final(self).last_condition == condition_after(
                        old(self).last_condition,
                        readings@,
                    )
                    &&& steps(plan@) == plan_of(alerts_of(old(self).last_condition, readings@))
                },
                PollOutcome::Failed(_) => {
                    &&& final(self).last_condition == old(self).last_condition
                    &&& steps(plan@) == seq![LoopStep::Sleep(POLL_INTERVAL_SECS)]
                },
            },
    {
        let alerts = match outcome {
            PollOutcome::Sampled(readings) => self.poll_pass(readings),
            PollOutcome::Failed(_) => Vec::new(),
        };
        let mut plan: Vec<LoopAction> = Vec::new();
        let mut index: usize = 0;
        assert(steps(plan@) =~= raising(texts(alerts@).take(0)));
        while index < alerts.len()
            invariant
                index <= alerts@.len(),
                steps(plan@) == raising(texts(alerts@).take(index as int)),
            decreases alerts@.len() - index,
        {
            let event = alerts[index].clone();
            let ghost before = plan@;
            plan.push(LoopAction::PlaySound);
            plan.push(LoopAction::Notify(event));
            assert(steps(plan@) =~= steps(before).push(LoopStep::PlaySound).push(
                LoopStep::Notify(event@),
            ));
            assert(steps(plan@) =~= raising(texts(alerts@).take(index + 1)));
            index = index + 1;
        }
        assert(texts(alerts@).take(index as int) =~= texts(alerts@));
        let ghost before = plan@;
        plan.push(LoopAction::Sleep(POLL_INTERVAL_SECS));
        assert(steps(plan@) =~= steps(before).push(LoopStep::Sleep(POLL_INTERVAL_SECS)));
        proof {
            if outcome is Failed {
                assert(steps(plan@) =~= seq![LoopStep::Sleep(POLL_INTERVAL_SECS)]);
            }
        }
        plan
    }
}

/// Two tests that agree on every entry of a sequence keep the same entries.
proof fn lemma_filter_agrees(entries: Seq<int>, first: spec_fn(int) -> bool, second: spec_fn(int) -> bool)
    requires
        forall|i: int| 0 <= i < entries.len() ==> first(entries[i]) == second(entries[i]),
    ensures
        entries.filter(first) == entries.filter(second),
    decreases entries.len(),
{
    reveal(Seq::filter);
    if entries.len() > 0 {
        lemma_filter_agrees(entries.drop_last(), first, second);
    }
}

/// The alert positions of a sequence of readings are those of all but the
/// last reading, and the last position where that one raises an alert.
proof fn lemma_positions_step(initial: AlertCondition, readings: Seq<Reading>)
    requires
        readings.len() > 0,
    ensures
        alert_positions(initial, readings) == if raises_at(
            initial,
            readings,
            readings.len() - 1,
        ) {
            alert_positions(initial, readings.drop_last()).push(readings.len() - 1)
        } else {
            alert_positions(initial, readings.drop_last())
        },
{
    reveal(Seq::filter);
    let earlier = readings.drop_last();
    let places = Seq::new(readings.len(), |index: int| index);
    let earlier_places = Seq::new(earlier.len(), |index: int| index);
    let raises = |index: int| raises_at(initial, readings, index);
    let raised_earlier = |index: int| raises_at(initial, earlier, index);
    assert(places.drop_last() =~= earlier_places);
    assert(places.last() == readings.len() - 1);
    lemma_filter_agrees(earlier_places, raises, raised_earlier);
}

/// Every alert position is a position of the sequence.
proof fn lemma_positions_in_range(initial: AlertCondition, readings: Seq<Reading>)
    ensures
        forall|k: int|
            0 <= k < alert_positions(initial, readings).len() ==> 0 <= #[trigger] alert_positions(
                initial,
                readings,
            )[k] < readings.len(),
{
    let places = Seq::new(readings.len(), |index: int| index);
    let raises = |index: int| raises_at(initial, readings, index);
    assert forall|k: int| 0 <= k < places.filter(raises).len() implies 0 <= #[trigger] places.filter(
        raises,
    )[k] < readings.len() by {
        places.lemma_filter_pred(raises, k);
    }
}

/// Debouncing. The alerts raised over a sequence of readings are those of
/// the positions whose condition is not clear and differs from the
/// condition just before, one alert for each such position, in order, and
/// none for any other position.
pub proof fn lemma_alerts_at_changes(initial: AlertCondition, readings: Seq<Reading>)
    ensures
        alerts_of(initial, readings) == alert_positions(initial, readings).map_values(
            |index: int| alert_at(readings, index),
        ),
    decreases readings.len(),
{
    let alert = |index: int| alert_at(readings, index);
    if readings.len() == 0 {
        reveal(Seq::filter);
        assert(alert_positions(initial, readings).map_values(alert) =~= Seq::<AlertText>::empty());
    } else {
        let earlier = readings.drop_last();
        let last = readings.len() - 1;
        let earlier_alert = |index: int| alert_at(earlier, index);
        let positions = alert_positions(initial, earlier);
        lemma_alerts_at_changes(initial, earlier);
        lemma_positions_step(initial, readings);
        lemma_positions_in_range(initial, earlier);
        assert(positions.map_values(earlier_alert) =~= positions.map_values(alert));
        assert(condition_after(initial, earlier) == condition_before(initial, readings, last));
        if raises_at(initial, readings, last) {
            assert(positions.push(last).map_values(alert) =~= positions.map_values(alert).push(
                alert_at(readings, last),
            ));
        }
    }
}

/// While one condition lasts, at most one alert is raised: the first of a
/// run of readings of the same condition raises it where that condition is
/// not clear and is new to the monitor, and the readings after it raise
/// nothing.
pub proof fn lemma_one_alert_per_run(initial: AlertCondition, readings: Seq<Reading>)
    requires
        readings.len() > 0,
        forall|i: int|
            0 <= i < readings.len() ==> (#[trigger] readings[i]).condition()
                == readings[0].condition(),
    ensures
        condition_after(initial, readings) == readings[0].condition(),
        alerts_of(initial, readings) == if alert_due(initial, readings[0].condition()) {
            seq![alert_at(readings, 0)]
        } else {
            Seq::<AlertText>::empty()
        },
    decreases readings.len(),
{
    let earlier = readings.drop_last();
    if earlier.len() == 0 {
        assert(alerts_of(initial, earlier) =~= Seq::<AlertText>::empty());
        assert(Seq::<AlertText>::empty().push(alert_at(readings, 0)) =~= seq![
            alert_at(readings, 0),
        ]);
    } else {
        lemma_one_alert_per_run(initial, earlier);
        assert(alert_at(earlier, 0) == alert_at(readings, 0));
    }
}

} // verus!
