use std::collections::HashMap;
use hamr::note::{parse_env_vars, ConfigFile, Note, NoteError};
use hamr::restore::{file_contents, restore_step, RestoreAction};

#[test]
fn split_vars() {
    let mut expected = HashMap::new();
    expected.insert(String::from("DB_USER"), String::from("admin"));
    expected.insert(String::from("DB_PASSWORD"), String::from("scrt"));
    let result: HashMap<String, String> = parse_env_vars(vec![String::from("DB_USER=admin"), String::from("DB_PASSWORD=scrt")]).unwrap().into_iter().collect();
    assert_eq!(result, expected)
}

#[test]
fn later_assignment_wins() {
    let result = parse_env_vars(vec![String::from("A=1"), String::from("B=2"), String::from("A=3")]).unwrap();
    assert_eq!(result.len(), 2);
    let map: HashMap<String, String> = result.into_iter().collect();
    assert_eq!(map["A"], "3");
    assert_eq!(map["B"], "2");
}

#[test]
fn value_keeps_later_equals_signs() {
    let result = parse_env_vars(vec![String::from("URL=a=b"), String::from("EMPTY=")]).unwrap();
    let map: HashMap<String, String> = result.into_iter().collect();
    assert_eq!(map["URL"], "a=b");
    assert_eq!(map["EMPTY"], "");
}

#[test]
fn assignment_without_equals_fails() {
    match parse_env_vars(vec![String::from("A=1"), String::from("NOEQUALS")]) {
        Err(NoteError::MalformedAssignment { assignment }) => assert_eq!(assignment, "NOEQUALS"),
        other => panic!("unexpected {:?}", other),
    }
}

#[test]
fn config_file_lines() {
    let f = ConfigFile::from_text("app.properties", "PORT: 8998\r\nHOST=x\n\nlast");
    assert_eq!(f.path, "app.properties");
    assert_eq!(f.secrets, vec!["PORT: 8998", "HOST=x", "", "last"]);
    let f = ConfigFile::from_text("e", "one\n");
    assert_eq!(f.secrets, vec!["one"]);
    assert!(ConfigFile::from_text("e", "").secrets.is_empty());
}

#[test]
fn config_file_equality_is_structural() {
    let a = ConfigFile::from_text("p", "x\ny");
    let b = ConfigFile::from_text("p", "x\ny\n");
    let c = ConfigFile::from_text("q", "x\ny");
    let d = ConfigFile::from_text("p", "x");
    assert!(a == b);
    assert!(a != c);
    assert!(a != d);
}

#[test]
fn note_from_files_and_vars() {
    let files = vec![ConfigFile::from_text("a", "1\n2")];
    let note = Note::from(files, vec![String::from("K=V")]).unwrap();
    assert_eq!(note.config_files.len(), 1);
    assert_eq!(note.config_files[0].secrets, vec!["1", "2"]);
    assert_eq!(note.env_variables, vec![(String::from("K"), String::from("V"))]);
    assert!(Note::from(Vec::new(), vec![String::from("bad")]).is_err());
}

#[test]
fn restore_skips_absolute_path() {
    let f = ConfigFile::from_text("/etc/passwd", "x");
    assert_eq!(restore_step(&f, false), RestoreAction::SkipAbsolute);
    assert_eq!(restore_step(&f, true), RestoreAction::SkipAbsolute);
}

#[test]
fn restore_skips_existing_file() {
    let f = ConfigFile::from_text("config/app.yml", "x");
    assert_eq!(restore_step(&f, true), RestoreAction::SkipExists);
}

#[test]
fn restore_writes_joined_lines() {
    let f = ConfigFile::from_text("config/app.yml", "a: 1\nb: 2\n");
    assert_eq!(restore_step(&f, false), RestoreAction::Write(String::from("a: 1\nb: 2")));
    assert_eq!(file_contents(&Vec::new()), "");
    assert_eq!(file_contents(&vec![String::from("only")]), "only");
}
