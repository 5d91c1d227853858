use sandboxie_whitelist::access::{Access, Entry};
use sandboxie_whitelist::blacklist::DirListing;
use sandboxie_whitelist::rules::{generate_rules, rule_entries, serialize_rules};

fn entry(path: &str, access: Access) -> Entry {
    Entry::new(path.to_string(), access)
}

#[test]
fn keys_of_every_tier() {
    let keys: Vec<String> = Access::all().iter().map(|a| a.to_ini_string()).collect();
    assert_eq!(
        keys,
        vec![
            "NormalFilePath",
            "OpenFilePath",
            "OpenPipePath",
            "ClosedFilePath",
            "ReadFilePath",
            "WriteFilePath"
        ]
    );
}

#[test]
fn labels_and_descriptions() {
    assert_eq!(Access::OpenForAll.label(), "Open For All");
    assert_eq!(Access::ReadOnly.label(), "Read Only");
    assert_eq!(Access::BoxOnly.label(), "Box Only");
    assert_eq!(Access::Open.description(), "Allow write-access outside of sandbox.");
    assert_eq!(Access::ReadOnly.description(), "Allow read-only access only.");
}

#[test]
fn serialized_lines_with_directory_suffix() {
    let entries = vec![
        entry("C:\\Program Files", Access::Open),
        entry("", Access::Normal),
        entry("C:\\file.txt", Access::ReadOnly),
    ];
    let dirs = vec!["C:\\Program Files".to_string()];
    assert_eq!(
        serialize_rules(&entries, &dirs),
        "# Generated by jameender/sandboxie-whitelist\nOpenFilePath=C:\\Program Files\\*\nReadFilePath=C:\\file.txt"
    );
}

#[test]
fn serialized_empty_list_is_the_header() {
    assert_eq!(serialize_rules(&vec![], &vec![]), "# Generated by jameender/sandboxie-whitelist\n");
}

#[test]
fn one_line_per_nonempty_entry() {
    let entries = vec![
        entry("C:\\A", Access::Open),
        entry("", Access::Open),
        entry("C:\\B", Access::Closed),
        entry("", Access::BoxOnly),
    ];
    let text = serialize_rules(&entries, &vec![]);
    let lines: Vec<&str> = text.split('\n').collect();
    assert_eq!(lines.len(), 3);
    assert_eq!(lines[0], "# Generated by jameender/sandboxie-whitelist");
    assert_eq!(lines[1], "OpenFilePath=C:\\A");
    assert_eq!(lines[2], "ClosedFilePath=C:\\B");
    assert_eq!(text.matches("# Generated by").count(), 1);
}

#[test]
fn privacy_mode_off_gives_only_whitelist() {
    let wl = vec![entry("C:\\Foo", Access::Open)];
    let ls = vec![DirListing {
        dir: "C:\\".to_string(),
        children: vec!["Foo".to_string(), "Bar".to_string()],
    }];
    let dirs = vec!["C:\\Foo".to_string(), "C:\\Bar".to_string()];
    assert_eq!(
        generate_rules(&wl, false, &ls, &dirs),
        "# Generated by jameender/sandboxie-whitelist\nOpenFilePath=C:\\Foo\\*"
    );
}

#[test]
fn privacy_mode_on_appends_denials() {
    let wl = vec![entry("C:\\Foo", Access::Open)];
    let ls = vec![DirListing {
        dir: "C:\\".to_string(),
        children: vec!["Foo".to_string(), "Bar".to_string(), "x.sys".to_string()],
    }];
    let dirs = vec!["C:\\Foo".to_string(), "C:\\Bar".to_string()];
    assert_eq!(
        generate_rules(&wl, true, &ls, &dirs),
        "# Generated by jameender/sandboxie-whitelist\nOpenFilePath=C:\\Foo\\*\nWriteFilePath=C:\\Bar\\*\nWriteFilePath=C:\\x.sys"
    );
}

#[test]
fn rule_entries_render_as_generated_text() {
    let wl = vec![entry("C:\\Foo", Access::Open), entry("", Access::Normal)];
    let ls = vec![DirListing {
        dir: "C:\\".to_string(),
        children: vec!["Foo".to_string(), "Bar".to_string()],
    }];
    let dirs = vec!["C:\\Bar".to_string()];
    let all = rule_entries(&wl, true, &ls);
    assert_eq!(all.len(), 3);
    assert_eq!(all[2], entry("C:\\Bar", Access::BoxOnly));
    assert_eq!(serialize_rules(&all, &dirs), generate_rules(&wl, true, &ls, &dirs));
    assert_eq!(rule_entries(&wl, false, &ls), wl);
}
