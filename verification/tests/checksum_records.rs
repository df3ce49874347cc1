use dev_cli::checksum::{load_records, parse_line, ChecksumRecords};
use dev_cli::target::Target;

#[test]
fn absent_entry_counts_as_changed() {
    let records = ChecksumRecords::new(false);
    assert!(records.check_changed(Target::Core, "anything"));
}

#[test]
fn stored_entry_compares_digests() {
    let mut records = ChecksumRecords::new(false);
    records.set_hash(Target::Core, "abc123".to_string());
    assert!(!records.check_changed(Target::Core, "abc123"));
    assert!(records.check_changed(Target::Core, "abc124"));
}

#[test]
fn removing_an_entry_invalidates_the_skip() {
    let mut records = ChecksumRecords::new(false);
    records.set_hash(Target::Shared, "abc".to_string());
    assert!(!records.check_changed(Target::Shared, "abc"));
    let existed = records.remove_hash_if_exist(Target::Shared);
    assert!(existed);
    assert!(records.check_changed(Target::Shared, "abc"));
    // Removing again reports that nothing was there.
    let existed_again = records.remove_hash_if_exist(Target::Shared);
    assert!(!existed_again);
}

#[test]
fn persisted_files_are_scoped_by_production() {
    let dev = ChecksumRecords::new(false);
    let prod = ChecksumRecords::new(true);
    assert_eq!(dev.file_name(), ".checksums_dev");
    assert_eq!(prod.file_name(), ".checksums_prod");
}

#[test]
fn serialization_writes_one_line_per_entry_in_order() {
    let mut records = ChecksumRecords::new(false);
    records.set_hash(Target::Binding, "bbb".to_string());
    records.set_hash(Target::Core, "aaa".to_string());
    assert_eq!(records.serialize(), "Core aaa\nBinding bbb\n");
}

#[test]
fn parse_line_accepts_exact_lines() {
    assert_eq!(parse_line("Core abc123"), Some((Target::Core, "abc123".to_string())));
    assert_eq!(parse_line("Wrapper ff00"), Some((Target::Wrapper, "ff00".to_string())));
    assert_eq!(parse_line("Nope abc123"), None);
    assert_eq!(parse_line("Coreabc123"), None);
    assert_eq!(parse_line(""), None);
    assert_eq!(parse_line("core abc"), None);
}

#[test]
fn load_round_trips_serialized_records() {
    let mut records = ChecksumRecords::new(false);
    records.set_hash(Target::Core, "aaa".to_string());
    records.set_hash(Target::Client, "ccc".to_string());
    let text = records.serialize();
    let loaded = load_records(false, text.as_str());
    assert!(!loaded.check_changed(Target::Core, "aaa"));
    assert!(!loaded.check_changed(Target::Client, "ccc"));
    assert!(loaded.check_changed(Target::Shared, "anything"));
    assert_eq!(loaded.serialize(), text);
}

#[test]
fn load_ignores_damaged_lines() {
    let text = "Core aaa\nnot a line\nShared bbb\n";
    let loaded = load_records(false, text);
    assert!(!loaded.check_changed(Target::Core, "aaa"));
    assert!(!loaded.check_changed(Target::Shared, "bbb"));
}

#[test]
fn load_lets_the_last_line_win() {
    let text = "Core aaa\nCore bbb\n";
    let loaded = load_records(false, text);
    assert!(!loaded.check_changed(Target::Core, "bbb"));
    assert!(loaded.check_changed(Target::Core, "aaa"));
}
