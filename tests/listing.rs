use hamr::listing::{find_entry, find_note, ls, LPassError, LPassErrorKind};

#[test]
fn listing_parses_entries_in_order() {
    let entries = ls("foo/bar [id: 42]\nbaz [id: 7]\n").unwrap();
    assert_eq!(entries.len(), 2);
    assert_eq!(entries[0].folders, vec!["foo"]);
    assert_eq!(entries[0].name, "bar");
    assert_eq!(entries[0].id, 42);
    assert!(entries[1].folders.is_empty());
    assert_eq!(entries[1].name, "baz");
    assert_eq!(entries[1].id, 7);
}

#[test]
fn listing_without_separator_fails() {
    let err = ls("malformed-line-without-id\n").unwrap_err();
    assert_eq!(err.kind, LPassErrorKind::MissingSeparator);
    assert_eq!(err.msg, "No id in line: malformed-line-without-id");
}

#[test]
fn listing_with_empty_id_fails() {
    assert_eq!(ls("a [id: ").unwrap_err().kind, LPassErrorKind::MissingId);
    assert_eq!(ls("a [id: ]").unwrap_err().kind, LPassErrorKind::MissingId);
}

#[test]
fn listing_with_bad_id_fails() {
    assert_eq!(ls("a [id: x]").unwrap_err().kind, LPassErrorKind::InvalidId);
    assert_eq!(ls("a [id: 42").unwrap_err().kind, LPassErrorKind::InvalidId);
    assert_eq!(ls("a [id: 18446744073709551616]").unwrap_err().kind, LPassErrorKind::InvalidId);
    assert_eq!(ls("a [id: -1]").unwrap_err().kind, LPassErrorKind::InvalidId);
}

#[test]
fn listing_is_all_or_nothing() {
    assert!(ls("a [id: 1]\nbroken\nb [id: 2]\n").is_err());
}

#[test]
fn listing_edge_cases() {
    assert!(ls("").unwrap().is_empty());
    let entries = ls("x/y/z [id: 18446744073709551615]\r\n\nw [id: +5]").unwrap();
    assert_eq!(entries.len(), 2);
    assert_eq!(entries[0].folders, vec!["x", "y"]);
    assert_eq!(entries[0].name, "z");
    assert_eq!(entries[0].id, u64::MAX);
    assert_eq!(entries[1].id, 5);
}

#[test]
fn find_entry_takes_first_match() {
    let entries = ls("a/dup [id: 1]\nb/dup [id: 2]\n").unwrap();
    let found = find_entry(entries, "dup").unwrap();
    assert_eq!(found.id, 1);
    let entries = ls("a/dup [id: 1]\n").unwrap();
    assert!(find_entry(entries, "other").is_none());
}

#[test]
fn find_note_looks_up_title() {
    let text = "Shared/Hamr - github.com gissleh ngn4 [id: 9]\nother [id: 3]\n";
    let found = find_note("git@github.com:gissleh/ngn4.git", text).unwrap().unwrap();
    assert_eq!(found.id, 9);
    assert_eq!(found.folders, vec!["Shared"]);
    assert!(find_note("https://example.com/x/y", text).unwrap().is_none());
    assert!(find_note("https://example.com/x/y", "bad\n").is_err());
}

#[test]
fn show_command_names_the_id() {
    let entries = ls("e [id: 1024]\n").unwrap();
    let inv = entries[0].load();
    assert_eq!(inv.program, "lpass");
    assert_eq!(inv.args, vec!["show", "1024"]);
    assert!(inv.input.is_none());
    let entries = ls("e [id: 0]\n").unwrap();
    assert_eq!(entries[0].load().args, vec!["show", "0"]);
}

#[test]
fn error_message_is_prefixed() {
    let e = LPassError::new(LPassErrorKind::Exec, "Could not exec command");
    assert_eq!(e.message(), "(LPass) Could not exec command");
}
