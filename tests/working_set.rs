use sandboxie_whitelist::access::{Access, Entry};
use sandboxie_whitelist::blacklist::DirListing;
use sandboxie_whitelist::working_set::{strip_extended_prefix, WorkingSet};

fn three_rows() -> WorkingSet {
    let mut ws = WorkingSet::new();
    ws.add_picked(&vec![
        "C:\\Program Files".to_string(),
        "C:\\Program Files (x86)".to_string(),
        "C:\\Windows\\System32".to_string(),
    ]);
    ws
}

#[test]
fn new_working_set_is_empty() {
    let ws = WorkingSet::new();
    assert!(ws.entries.is_empty());
    assert!(ws.privacy_mode);
    assert_eq!(ws.default_access, Access::Open);
}

#[test]
fn blank_row_takes_default_access() {
    let mut ws = three_rows();
    ws.default_access = Access::ReadOnly;
    ws.add_blank_entry();
    assert_eq!(ws.entries.len(), 4);
    assert_eq!(ws.entries[3], Entry::new(String::new(), Access::ReadOnly));
}

#[test]
fn marked_rows_are_removed() {
    let mut ws = three_rows();
    ws.remove_marked(&vec![0, 2, 7]);
    assert_eq!(ws.entries.len(), 1);
    assert_eq!(ws.entries[0].path, "C:\\Program Files (x86)");
}

#[test]
fn picked_paths_lose_extended_prefix() {
    let mut ws = three_rows();
    ws.default_access = Access::Closed;
    ws.add_picked(&vec!["\\\\?\\C:\\Data".to_string(), "D:\\Plain".to_string()]);
    assert_eq!(ws.entries.len(), 5);
    assert_eq!(ws.entries[0], Entry::new("C:\\Program Files".to_string(), Access::Open));
    assert_eq!(ws.entries[3], Entry::new("C:\\Data".to_string(), Access::Closed));
    assert_eq!(ws.entries[4], Entry::new("D:\\Plain".to_string(), Access::Closed));
}

#[test]
fn extended_prefix_stripping() {
    assert_eq!(strip_extended_prefix(&"\\\\?\\C:\\x".to_string()), "C:\\x");
    assert_eq!(strip_extended_prefix(&"C:\\x".to_string()), "C:\\x");
    assert_eq!(strip_extended_prefix(&"\\\\?\\\\\\?\\y".to_string()), "y");
    assert_eq!(strip_extended_prefix(&"\\\\?".to_string()), "\\\\?");
}

#[test]
fn duplicate_rows_share_one_selector() {
    let mut ws = three_rows();
    ws.add_picked(&vec!["C:\\Program Files".to_string()]);
    ws.add_blank_entry();
    assert!(ws.shows_access_selector(0));
    assert!(!ws.shows_access_selector(3));
    assert!(!ws.shows_access_selector(4));
}

#[test]
fn closed_entry_with_privacy_on_gives_whitelist_only() {
    let ws = WorkingSet {
        entries: vec![Entry::new("C:\\Locked".to_string(), Access::Closed)],
        default_access: Access::Open,
        privacy_mode: true,
    };
    let ls = vec![DirListing {
        dir: "C:\\".to_string(),
        children: vec!["Locked".to_string(), "Other".to_string()],
    }];
    assert_eq!(
        ws.generate(&ls, &vec![]),
        "# Generated by jameender/sandboxie-whitelist\nClosedFilePath=C:\\Locked"
    );
}
