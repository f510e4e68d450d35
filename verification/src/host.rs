//! The lines of text that the host shell shows besides alerts.

use vstd::prelude::*;
use vstd::string::*;

verus! {

/// What asking the machine for its model name brought.
#[derive(Debug)]
pub enum ModelProbe {
    /// This kind of system has no model name to ask for.
    Unsupported,
    /// The system was asked and did not answer.
    Failed,
    /// The model name that the system reported.
    Reported(String),
}

/// The model name to show for a probe.
pub open spec fn model_name(probe: ModelProbe) -> Seq<char> {
    match probe {
        ModelProbe::Unsupported => "Generic Device"@,
        ModelProbe::Failed => "Unknown Model"@,
        ModelProbe::Reported(name) => name@,
    }
}

/// The one-line description of a system: its kind, its release and its
/// model.
pub open spec fn system_summary(
    os_type: Seq<char>,
    os_release: Seq<char>,
    model: Seq<char>,
) -> Seq<char> {
    os_type + " - "@ + os_release + " - Model: "@ + model
}

/// The greeting for `name`.
pub open spec fn greeting_text(name: Seq<char>) -> Seq<char> {
    "Hello, "@ + name + "! You've been greeted from Rust!"@
}

/// Describes the system in one line.
pub fn describe_system(os_type: &str, os_release: &str, probe: &ModelProbe) -> (line: String)
    ensures
        line@ == system_summary(os_type@, os_release@, model_name(*probe)),
{
    let mut line = String::from_str(os_type);
    line.append(" - ");
    line.append(os_release);
    line.append(" - Model: ");
    match probe {
        ModelProbe::Unsupported => line.append("Generic Device"),
        ModelProbe::Failed => line.append("Unknown Model"),
        ModelProbe::Reported(name) => line.append(name.as_str()),
    }
    line
}

/// Greets `name`.
pub fn greet(name: &str) -> (line: String)
    ensures
        line@ == greeting_text(name@),
{
    let mut line = String::from_str("Hello, ");
    line.append(name);
    line.append("! You've been greeted from Rust!");
    line
}

} // verus!
