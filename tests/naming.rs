use hamr::naming::note_name;
use hamr::repo::{get_folder_from_path, git_clone};

#[test]
fn test_note_name() {
    assert_eq!(note_name("https://github.com/gissleh/ngn4"), "Hamr - github.com gissleh ngn4");
    assert_eq!(note_name("https://github.com/gissleh/ngn4.git"), "Hamr - github.com gissleh ngn4");
    assert_eq!(note_name("git+ssh://github.com/gissleh/ngn4.git"), "Hamr - github.com gissleh ngn4");
    assert_eq!(note_name("git@github.com:gissleh/ngn4.git"), "Hamr - github.com gissleh ngn4");
    assert_eq!(note_name("github.com:gissleh/ngn4"), "Hamr - github.com gissleh ngn4");
    assert_eq!(note_name("git@gitlab.sportradar.ag:streaming/vt-monitor.git"), "Hamr - gitlab.sportradar.ag streaming vt-monitor");
}

#[test]
fn note_name_of_empty_url() {
    assert_eq!(note_name(""), "Hamr - ");
}

#[test]
fn note_name_keeps_text_after_last_at() {
    assert_eq!(note_name("a@b@host:x/y.git"), "Hamr - host x y");
}

#[test]
fn note_name_strips_only_leading_scheme() {
    assert_eq!(note_name("host/https://x"), "Hamr - host https   x");
}

#[test]
fn folder_from_path_drops_git_suffix() {
    assert_eq!(get_folder_from_path("git@github.com:gissleh/ngn4.git"), "ngn4");
    assert_eq!(get_folder_from_path("https://github.com/gissleh/ngn4"), "ngn4");
    assert_eq!(get_folder_from_path("plain"), "plain");
}

#[test]
fn clone_uses_given_or_derived_folder() {
    let (inv, folder) = git_clone("https://github.com/gissleh/ngn4.git", &None);
    assert_eq!(folder, "ngn4");
    assert_eq!(inv.program, "git");
    assert_eq!(inv.args, vec!["clone", "https://github.com/gissleh/ngn4.git", "ngn4"]);
    let (inv, folder) = git_clone("https://github.com/gissleh/ngn4.git", &Some(String::from("dest")));
    assert_eq!(folder, "dest");
    assert_eq!(inv.args, vec!["clone", "https://github.com/gissleh/ngn4.git", "dest"]);
}
