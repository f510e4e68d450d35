use battery_alert::host::{describe_system, greet, ModelProbe};

#[test]
fn greeting_names_the_guest() {
    assert_eq!(greet("Ada"), "Hello, Ada! You've been greeted from Rust!");
    assert_eq!(greet(""), "Hello, ! You've been greeted from Rust!");
}

#[test]
fn summary_joins_kind_release_and_model() {
    assert_eq!(
        describe_system("Darwin", "23.1.0", &ModelProbe::Reported(String::from("MacBookPro18,3"))),
        "Darwin - 23.1.0 - Model: MacBookPro18,3"
    );
}

#[test]
fn summary_names_a_generic_device_where_no_model_can_be_asked_for() {
    assert_eq!(
        describe_system("Linux", "6.8.0", &ModelProbe::Unsupported),
        "Linux - 6.8.0 - Model: Generic Device"
    );
}

#[test]
fn summary_names_an_unknown_model_where_the_probe_failed() {
    assert_eq!(
        describe_system("Darwin", "23.1.0", &ModelProbe::Failed),
        "Darwin - 23.1.0 - Model: Unknown Model"
    );
}
