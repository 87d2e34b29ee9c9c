use taskmon::app_core::{AppCore, InputMode};

#[test]
fn core_starts_running_with_nop() {
    let core = AppCore::new();
    assert!(core.is_running());
    assert_eq!(core.get_last_message(), "nop");
}

#[test]
fn core_last_message_is_last_pushed() {
    let mut core = AppCore::new();
    core.push_message(String::from("first"));
    core.push_message(String::from("second"));
    assert_eq!(core.get_last_message(), "second");
    assert!(core.is_running());
}

#[test]
fn core_exit_stops_and_keeps_log() {
    let mut core = AppCore::new();
    core.push_message(String::from("hello"));
    core.exit();
    assert!(!core.is_running());
    assert_eq!(core.get_last_message(), "hello");
    core.exit();
    assert!(!core.is_running());
}

#[test]
fn input_mode_compares() {
    assert_eq!(InputMode::False, InputMode::False);
    assert_ne!(InputMode::Find, InputMode::Command);
}

#[test]
fn core_exit_is_final_over_calls() {
    let mut core = AppCore::new();
    core.exit();
    core.push_message(String::from("after"));
    let _ = core.get_last_message();
    core.exit();
    assert!(!core.is_running());
    assert!(!core.is_running());
    assert_eq!(core.get_last_message(), "after");
}
