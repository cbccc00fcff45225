use ecs_inspector::handles::{handle_display, handle_header, short_circuit_result, HandleDisplay};

#[test]
fn values_that_are_not_handles_are_left_alone() {
    assert_eq!(handle_display(false, true, true), HandleDisplay::NotAHandle);
    assert_eq!(handle_display(false, false, false), HandleDisplay::NotAHandle);
    assert_eq!(short_circuit_result(HandleDisplay::NotAHandle, true), None);
}

#[test]
fn handle_without_world() {
    assert_eq!(handle_display(true, false, true), HandleDisplay::NoWorld);
    assert_eq!(short_circuit_result(HandleDisplay::NoWorld, true), Some(false));
}

#[test]
fn dead_handle() {
    assert_eq!(handle_display(true, true, false), HandleDisplay::DeadHandle);
    assert_eq!(short_circuit_result(HandleDisplay::DeadHandle, true), Some(false));
}

#[test]
fn live_handle_shows_the_asset() {
    assert_eq!(handle_display(true, true, true), HandleDisplay::Asset);
    assert_eq!(short_circuit_result(HandleDisplay::Asset, true), Some(true));
    assert_eq!(short_circuit_result(HandleDisplay::Asset, false), Some(false));
}

#[test]
fn asset_header() {
    assert_eq!(handle_header("00000000DEADBEEF"), "Handle(00000000DEADBEEF)");
}
