use sandboxie_whitelist::access::{Access, Entry};
use sandboxie_whitelist::blacklist::{directories_to_list, generate_blacklist, DirListing};
use sandboxie_whitelist::path::{contains_text, path_components};

fn entry(path: &str, access: Access) -> Entry {
    Entry::new(path.to_string(), access)
}

fn listing(dir: &str, children: &[&str]) -> DirListing {
    DirListing {
        dir: dir.to_string(),
        children: children.iter().map(|c| c.to_string()).collect(),
    }
}

fn paths(entries: &[Entry]) -> Vec<String> {
    entries.iter().map(|e| e.path.clone()).collect()
}

#[test]
fn siblings_of_single_entry_are_denied() {
    let wl = vec![entry("C:\\Foo", Access::Open)];
    let ls = vec![listing("C:\\", &["Foo", "Bar", "Baz"])];
    let bl = generate_blacklist(&wl, &ls);
    assert_eq!(paths(&bl), vec!["C:\\Bar".to_string(), "C:\\Baz".to_string()]);
    assert!(bl.iter().all(|e| e.access == Access::BoxOnly));
    assert!(!paths(&bl).contains(&"C:\\Foo".to_string()));
}

fn users_listings() -> Vec<DirListing> {
    vec![
        listing("C:\\", &["Users", "Documents and Settings", "Windows"]),
        listing("C:\\Users", &["Alice", "Bob", "Public"]),
        listing("C:\\Users\\Alice", &["Docs", "Music"]),
    ]
}

#[test]
fn nested_entry_denies_every_level_and_skips_legacy_alias() {
    let wl = vec![entry("C:\\Users\\Alice\\Docs", Access::Open)];
    let bl = generate_blacklist(&wl, &users_listings());
    assert_eq!(
        paths(&bl),
        vec![
            "C:\\Windows".to_string(),
            "C:\\Users\\Bob".to_string(),
            "C:\\Users\\Public".to_string(),
            "C:\\Users\\Alice\\Music".to_string(),
        ]
    );
}

#[test]
fn legacy_alias_is_denied_without_users_reference() {
    let wl = vec![entry("C:\\Tools", Access::Open)];
    let ls = vec![listing("C:\\", &["Tools", "Documents and Settings"])];
    let bl = generate_blacklist(&wl, &ls);
    assert_eq!(paths(&bl), vec!["C:\\Documents and Settings".to_string()]);
}

fn nested_listings() -> Vec<DirListing> {
    vec![
        listing("C:\\", &["A", "X"]),
        listing("C:\\A", &["B", "D"]),
        listing("C:\\A\\B", &["C", "E"]),
    ]
}

#[test]
fn ancestor_and_descendant_entries() {
    let wl = vec![entry("C:\\A", Access::Open), entry("C:\\A\\B\\C", Access::ReadOnly)];
    let bl = generate_blacklist(&wl, &nested_listings());
    assert_eq!(
        paths(&bl),
        vec!["C:\\X".to_string(), "C:\\A\\D".to_string(), "C:\\A\\B\\E".to_string()]
    );
}

#[test]
fn third_entry_between_ancestor_and_descendant() {
    let wl = vec![
        entry("C:\\A", Access::Open),
        entry("C:\\A\\B\\C", Access::ReadOnly),
        entry("C:\\A\\B", Access::Normal),
    ];
    let bl = generate_blacklist(&wl, &nested_listings());
    assert_eq!(
        paths(&bl),
        vec!["C:\\X".to_string(), "C:\\A\\D".to_string(), "C:\\A\\B\\E".to_string()]
    );
    assert!(!paths(&bl).contains(&"C:\\A\\B\\C".to_string()));
}

#[test]
fn closed_entry_yields_no_denials() {
    let wl = vec![entry("C:\\Locked", Access::Closed)];
    let ls = vec![listing("C:\\", &["Locked", "Other"])];
    assert!(generate_blacklist(&wl, &ls).is_empty());
}

#[test]
fn box_only_entry_yields_no_denials() {
    let wl = vec![entry("C:\\Hidden", Access::BoxOnly)];
    let ls = vec![listing("C:\\", &["Hidden", "Other"])];
    assert!(generate_blacklist(&wl, &ls).is_empty());
}

#[test]
fn closed_entry_still_protects_its_branch() {
    let wl = vec![entry("C:\\Foo", Access::Open), entry("C:\\Bar\\Inner", Access::Closed)];
    let ls = vec![listing("C:\\", &["Foo", "Bar", "Baz"])];
    assert_eq!(paths(&generate_blacklist(&wl, &ls)), vec!["C:\\Baz".to_string()]);
}

#[test]
fn sibling_leading_to_other_entry_is_not_denied() {
    let wl = vec![entry("C:\\Foo", Access::Open), entry("C:\\Bar\\Deep", Access::Open)];
    let ls = vec![
        listing("C:\\", &["Foo", "Bar", "Baz"]),
        listing("C:\\Bar", &["Deep", "Other"]),
    ];
    let bl = paths(&generate_blacklist(&wl, &ls));
    assert_eq!(bl, vec!["C:\\Baz".to_string(), "C:\\Bar\\Other".to_string()]);
}

#[test]
fn missing_listing_contributes_nothing() {
    let wl = vec![entry("C:\\Users\\Alice", Access::Open)];
    let ls = vec![listing("C:\\Users", &["Alice", "Bob"])];
    assert_eq!(paths(&generate_blacklist(&wl, &ls)), vec!["C:\\Users\\Bob".to_string()]);
}

#[test]
fn repeated_denials_appear_once() {
    let wl = vec![entry("C:\\Foo", Access::Open), entry("C:\\Qux", Access::Open)];
    let ls = vec![listing("C:\\", &["Foo", "Qux", "Bar"])];
    assert_eq!(paths(&generate_blacklist(&wl, &ls)), vec!["C:\\Bar".to_string()]);
}

#[test]
fn empty_path_entry_is_ignored() {
    let wl = vec![entry("", Access::Open)];
    let ls = vec![listing("\\", &["x"])];
    assert!(generate_blacklist(&wl, &ls).is_empty());
    assert!(directories_to_list(&wl).is_empty());
}

#[test]
fn marker_levels_are_skipped() {
    let wl = vec![entry("C:\\..\\Foo", Access::Open)];
    let ls = vec![listing("C:\\", &["..", "Bar"]), listing("C:\\..", &["Foo", "Baz"])];
    assert_eq!(paths(&generate_blacklist(&wl, &ls)), vec!["C:\\Bar".to_string()]);
}

#[test]
fn first_listing_of_a_directory_is_used() {
    let wl = vec![entry("C:\\Foo", Access::Open)];
    let ls = vec![listing("C:\\", &["Foo", "Bar"]), listing("C:\\", &["Baz"])];
    assert_eq!(paths(&generate_blacklist(&wl, &ls)), vec!["C:\\Bar".to_string()]);
}

#[test]
fn repeated_inference_gives_the_same_result() {
    let wl = vec![entry("C:\\Users\\Alice\\Docs", Access::Open)];
    let mut ls = users_listings();
    let first = generate_blacklist(&wl, &ls);
    let second = generate_blacklist(&wl, &ls);
    assert_eq!(first, second);
    ls.reverse();
    assert_eq!(generate_blacklist(&wl, &ls), first);
}

#[test]
fn no_denial_is_an_ancestor_of_a_whitelisted_path() {
    let wl = vec![
        entry("C:\\A", Access::Open),
        entry("C:\\A\\B\\C", Access::ReadOnly),
        entry("C:\\X\\Y", Access::Closed),
    ];
    let bl = generate_blacklist(&wl, &nested_listings());
    for d in &bl {
        let dc = path_components(&d.path);
        for w in &wl {
            let wc = path_components(&w.path);
            assert!(!(dc.len() <= wc.len() && wc[..dc.len()] == dc[..]), "{} hides {}", d.path, w.path);
        }
    }
}

#[test]
fn every_qualifying_sibling_is_denied_once() {
    let wl = vec![entry("C:\\Users\\Alice\\Docs", Access::Open)];
    let bl = paths(&generate_blacklist(&wl, &users_listings()));
    for p in ["C:\\Windows", "C:\\Users\\Bob", "C:\\Users\\Public", "C:\\Users\\Alice\\Music"] {
        assert_eq!(bl.iter().filter(|x| x.as_str() == p).count(), 1);
    }
}

#[test]
fn users_reference_removes_every_alias_denial() {
    let wl = vec![entry("C:\\Users\\Alice", Access::Open), entry("D:\\Work", Access::Open)];
    let ls = vec![
        listing("C:\\", &["Users", "Documents and Settings"]),
        listing("D:\\", &["Work", "C:\\Documents and Settings"]),
    ];
    let bl = paths(&generate_blacklist(&wl, &ls));
    assert!(bl.iter().all(|p| !p.contains("C:\\Documents and Settings")));
}

#[test]
fn directories_to_list_follow_the_walk() {
    let wl = vec![
        entry("C:\\Users\\Alice\\Docs", Access::Open),
        entry("C:\\Users\\Bob", Access::ReadOnly),
        entry("C:\\Locked\\x", Access::Closed),
    ];
    assert_eq!(
        directories_to_list(&wl),
        vec!["C:\\".to_string(), "C:\\Users".to_string(), "C:\\Users\\Alice".to_string()]
    );
}

#[test]
fn components_of_paths() {
    let c = path_components(&"C:\\Users\\Alice".to_string());
    assert_eq!(c, vec!["C:".to_string(), "Users".to_string(), "Alice".to_string()]);
    let c = path_components(&"C:/Users//Alice\\".to_string());
    assert_eq!(c, vec!["C:".to_string(), "Users".to_string(), "Alice".to_string()]);
    let c = path_components(&"\\Temp".to_string());
    assert_eq!(c, vec!["".to_string(), "Temp".to_string()]);
    assert_eq!(path_components(&String::new()), vec!["".to_string()]);
}

#[test]
fn substring_search() {
    assert!(contains_text("D:\\C:\\Users\\x", "C:\\Users"));
    assert!(!contains_text("C:\\User", "C:\\Users"));
    assert!(contains_text("abc", ""));
    assert!(!contains_text("", "a"));
}

#[test]
fn network_share_is_one_root() {
    let c = path_components(&"\\\\nas\\share\\docs".to_string());
    assert_eq!(c, vec!["\\\\nas\\share".to_string(), "docs".to_string()]);
    let c = path_components(&"//nas/share".to_string());
    assert_eq!(c, vec!["//nas/share".to_string()]);
    let c = path_components(&"\\\\nas".to_string());
    assert_eq!(c, vec!["\\\\nas".to_string()]);
}

#[test]
fn network_share_siblings_are_denied_at_the_share_root() {
    let wl = vec![entry("\\\\nas\\share\\docs", Access::Open)];
    assert_eq!(directories_to_list(&wl), vec!["\\\\nas\\share\\".to_string()]);
    let ls = vec![
        listing("\\", &["Windows"]),
        listing("\\\\nas\\share\\", &["docs", "pub"]),
    ];
    assert_eq!(paths(&generate_blacklist(&wl, &ls)), vec!["\\\\nas\\share\\pub".to_string()]);
}

#[test]
fn appended_closed_entry_adds_no_denial() {
    let wl = vec![entry("C:\\Foo", Access::Open)];
    let ls = vec![listing("C:\\", &["Foo", "Bar", "Baz"])];
    let before = paths(&generate_blacklist(&wl, &ls));
    let mut wl2 = wl.clone();
    wl2.push(entry("C:\\Baz\\Inner", Access::Closed));
    let after = paths(&generate_blacklist(&wl2, &ls));
    assert_eq!(after, vec!["C:\\Bar".to_string()]);
    assert!(after.iter().all(|p| before.contains(p)));
}
