use league_settings::settings::{
    handle_backup_of_original, plan, FileId, Operation, SettingsError, Slot, Store,
};

fn contents(store: &Store, id: FileId) -> Option<Vec<u8>> {
    store.get_file_contents(id).ok()
}

#[test]
fn perm_save_then_perm_load_scenario() {
    let mut store = Store::new();
    store.output_to_file(FileId::Live, b"{\"a\":1}".to_vec());
    assert_eq!(store.save_to_slot(Slot::Permanent), Ok(()));
    assert_eq!(contents(&store, FileId::Permanent), Some(b"{\"a\":1}".to_vec()));
    assert_eq!(contents(&store, FileId::Backup), Some(b"{\"a\":1}".to_vec()));
    store.output_to_file(FileId::Live, b"{\"a\":2}".to_vec());
    assert_eq!(store.load_from_slot(Slot::Permanent), Ok(()));
    assert_eq!(contents(&store, FileId::Live), Some(b"{\"a\":1}".to_vec()));
    assert_eq!(contents(&store, FileId::Backup), Some(b"{\"a\":1}".to_vec()));
}

#[test]
fn temp_save_then_temp_load_restores_live() {
    let mut store = Store::new();
    store.output_to_file(FileId::Live, b"first".to_vec());
    assert_eq!(store.save_to_slot(Slot::Temporary), Ok(()));
    store.output_to_file(FileId::Live, b"second".to_vec());
    assert_eq!(store.load_from_slot(Slot::Temporary), Ok(()));
    assert_eq!(store.read_config_file(), Ok(b"first".to_vec()));
    assert!(!store.has_file(FileId::Permanent));
}

#[test]
fn load_creates_backup_from_slot_content() {
    let mut store = Store::new();
    store.output_to_file(FileId::Live, b"live".to_vec());
    store.output_to_file(FileId::Permanent, b"slot".to_vec());
    assert_eq!(store.load_from_slot(Slot::Permanent), Ok(()));
    assert_eq!(contents(&store, FileId::Backup), Some(b"slot".to_vec()));
    assert_eq!(contents(&store, FileId::Live), Some(b"slot".to_vec()));
}

#[test]
fn existing_backup_never_changes() {
    let mut store = Store::new();
    store.output_to_file(FileId::Backup, b"kept".to_vec());
    store.output_to_file(FileId::Live, b"one".to_vec());
    store.output_to_file(FileId::Region, b"region: \"NA\"".to_vec());
    assert_eq!(store.save_to_slot(Slot::Permanent), Ok(()));
    assert_eq!(store.save_to_slot(Slot::Temporary), Ok(()));
    assert_eq!(store.load_from_slot(Slot::Permanent), Ok(()));
    assert_eq!(store.swap_region(), Ok(()));
    assert_eq!(store.load_from_slot(Slot::Temporary), Ok(()));
    assert_eq!(contents(&store, FileId::Backup), Some(b"kept".to_vec()));
}

#[test]
fn save_without_live_file_fails() {
    let mut store = Store::new();
    assert_eq!(
        store.save_to_slot(Slot::Permanent),
        Err(SettingsError::Read(FileId::Live))
    );
    assert!(!store.has_file(FileId::Backup));
    assert!(!store.has_file(FileId::Permanent));
}

#[test]
fn load_from_missing_slot_fails() {
    let mut store = Store::new();
    store.output_to_file(FileId::Live, b"live".to_vec());
    assert_eq!(
        store.load_from_slot(Slot::Temporary),
        Err(SettingsError::Read(FileId::Temporary))
    );
    assert_eq!(contents(&store, FileId::Live), Some(b"live".to_vec()));
    assert!(!store.has_file(FileId::Backup));
}

#[test]
fn swap_region_in_store() {
    let mut store = Store::new();
    assert_eq!(store.swap_region(), Err(SettingsError::Read(FileId::Region)));
    store.output_to_file(FileId::Region, b"region: \"NA\"\nother: x".to_vec());
    assert_eq!(store.swap_region(), Ok(()));
    assert_eq!(
        contents(&store, FileId::Region),
        Some(b"region: \"LA1\"\nother: x".to_vec())
    );
    assert!(!store.has_file(FileId::Backup));
}

#[test]
fn backup_write_only_when_missing() {
    let data = b"settings".to_vec();
    assert!(handle_backup_of_original(true, &data).is_none());
    let w = handle_backup_of_original(false, &data).unwrap();
    assert_eq!(w.target, FileId::Backup);
    assert_eq!(w.data, data);
}

#[test]
fn plan_lists_writes_in_order() {
    let ws = plan(Operation::SaveToSlot(Slot::Temporary), Some(b"x".to_vec()), false).unwrap();
    let got: Vec<(FileId, Vec<u8>)> = ws.into_iter().map(|w| (w.target, w.data)).collect();
    assert_eq!(
        got,
        vec![(FileId::Backup, b"x".to_vec()), (FileId::Temporary, b"x".to_vec())]
    );
    let ws = plan(Operation::LoadFromSlot(Slot::Permanent), Some(b"y".to_vec()), true).unwrap();
    let got: Vec<(FileId, Vec<u8>)> = ws.into_iter().map(|w| (w.target, w.data)).collect();
    assert_eq!(got, vec![(FileId::Live, b"y".to_vec())]);
}

#[test]
fn plan_reports_failed_read() {
    assert!(matches!(
        plan(Operation::LoadFromSlot(Slot::Permanent), None, false),
        Err(SettingsError::Read(FileId::Permanent))
    ));
    assert!(matches!(
        plan(Operation::SwapRegion, None, true),
        Err(SettingsError::Read(FileId::Region))
    ));
}

#[test]
fn file_names() {
    assert_eq!(FileId::Live.file_name(), "PersistedSettings.json");
    assert_eq!(FileId::Backup.file_name(), "PersistedSettingsBackup.json");
    assert_eq!(FileId::Permanent.file_name(), "PersistedSettingsPermanent.json");
    assert_eq!(FileId::Temporary.file_name(), "PersistedSettingsTemporary.json");
    assert_eq!(FileId::Region.file_name(), "LeagueClientSettings.yaml");
}
