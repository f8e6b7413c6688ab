use raw_linux::loader::{exit_status, message, plan, LoaderPlan};

#[test]
fn loader_without_entry_point_fails() {
    assert_eq!(plan(None, 0x1000), LoaderPlan::MissingEntry);
    assert_eq!(exit_status(LoaderPlan::MissingEntry), Some(1));
}

#[test]
fn loader_with_its_own_entry_point_has_nothing_to_load() {
    assert_eq!(plan(Some(0x1000), 0x1000), LoaderPlan::NothingToLoad);
    assert_eq!(exit_status(LoaderPlan::NothingToLoad), Some(0));
}

#[test]
fn loader_jumps_to_another_entry_point() {
    assert_eq!(plan(Some(0x401000), 0x1000), LoaderPlan::Jump(0x401000));
    assert_eq!(exit_status(LoaderPlan::Jump(0x401000)), None);
}

#[test]
fn loader_messages() {
    assert_eq!(message(LoaderPlan::NothingToLoad), "No program to load\n");
    assert_eq!(message(LoaderPlan::MissingEntry), "Missing required auxv\n");
    assert_eq!(message(LoaderPlan::Jump(1)), "Hello from the loader\n");
}
