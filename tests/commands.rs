use league_settings::command::{command_of_normalized, parse_command, same_text, Command};
use league_settings::settings::{Operation, Slot};

#[test]
fn parse_command_trims_and_ignores_case() {
    assert_eq!(parse_command("  HELP \n"), Command::Help);
    assert_eq!(parse_command("Perm_Save"), Command::PermSave);
    assert_eq!(parse_command("\tswap_REGION"), Command::SwapRegion);
    assert_eq!(parse_command("exit"), Command::Exit);
}

#[test]
fn parse_command_unknown_input() {
    assert_eq!(parse_command("perm save"), Command::Unknown);
    assert_eq!(parse_command(""), Command::Unknown);
}

#[test]
fn normalized_commands() {
    assert_eq!(command_of_normalized("perm_load"), Command::PermLoad);
    assert_eq!(command_of_normalized("temp_save"), Command::TempSave);
    assert_eq!(command_of_normalized("temp_load"), Command::TempLoad);
    assert_eq!(command_of_normalized("HELP"), Command::Unknown);
}

#[test]
fn command_operations() {
    assert_eq!(Command::PermSave.operation(), Some(Operation::SaveToSlot(Slot::Permanent)));
    assert_eq!(Command::TempLoad.operation(), Some(Operation::LoadFromSlot(Slot::Temporary)));
    assert_eq!(Command::SwapRegion.operation(), Some(Operation::SwapRegion));
    assert_eq!(Command::Help.operation(), None);
    assert_eq!(Command::Exit.operation(), None);
}

#[test]
fn same_text_compares_characters() {
    assert!(same_text("héllo", "héllo"));
    assert!(!same_text("hello", "hellO"));
    assert!(!same_text("hell", "hello"));
}
