use rainmeter::barrier::fault_message;
use rainmeter::barrier::resolve;
use rainmeter::barrier::HookOutcome;

#[test]
fn completed_update_passes_its_value_through_unlogged() {
    let (value, diagnostic) = resolve(HookOutcome::Completed(42.5f64), "Update", 0.0);
    assert_eq!(value, 42.5);
    assert!(diagnostic.is_none());
}

#[test]
fn faulted_update_yields_zero_and_one_error_diagnostic() {
    let outcome: HookOutcome<f64> = HookOutcome::Faulted(Some(String::from("boom")));
    let (value, diagnostic) = resolve(outcome, "Update", 0.0);
    assert_eq!(value, 0.0);
    assert_eq!(diagnostic.unwrap(), "Panic in Update: boom");
}

#[test]
fn faulted_get_string_falls_back_to_no_value() {
    let outcome: HookOutcome<Option<String>> = HookOutcome::Faulted(None);
    let (value, diagnostic) = resolve(outcome, "GetString", None);
    assert!(value.is_none());
    assert_eq!(diagnostic.unwrap(), "Panic in GetString: <non-string>");
}

#[test]
fn fault_message_names_entry_point_and_payload() {
    assert_eq!(fault_message("Reload", Some("bad option")), "Panic in Reload: bad option");
}

#[test]
fn fault_without_text_payload_gets_generic_marker() {
    assert_eq!(fault_message("Finalize", None), "Panic in Finalize: <non-string>");
}
