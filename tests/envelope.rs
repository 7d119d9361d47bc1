use hamr::command::{list_entries, login, run};
use hamr::envelope::{encode_body, load_data, save_data};

#[test]
fn body_round_trip() {
    let payload = "{\"a\":1}\nsecond line";
    let shown = format!("Shared/Hamr - x [id: 1]\n{}", encode_body(payload));
    assert_eq!(load_data(&shown), payload);
    let shown = format!("header\n{}\n", encode_body("p"));
    assert_eq!(load_data(&shown), "p");
    let shown = format!("header\n{}\r\n", encode_body("p"));
    assert_eq!(load_data(&shown), "p");
}

#[test]
fn body_without_line_break_is_empty() {
    assert_eq!(load_data("only a header"), "");
    assert_eq!(load_data(""), "");
}

#[test]
fn body_without_marker_is_kept() {
    assert_eq!(load_data("h\nplain text\n"), "plain text");
}

#[test]
fn encode_prefixes_marker() {
    assert_eq!(encode_body("data"), "HamrData: data");
    assert_eq!(encode_body(""), "HamrData: ");
}

#[test]
fn save_command_carries_body() {
    let inv = save_data("Hamr - h o r", "{}");
    assert_eq!(inv.program, "lpass");
    assert_eq!(inv.args, vec!["edit", "Hamr - h o r", "--non-interactive", "--sync=now"]);
    assert_eq!(inv.input, Some(String::from("HamrData: {}")));
}

#[test]
fn other_commands() {
    let inv = login("me@example.com");
    assert_eq!(inv.program, "lpass");
    assert_eq!(inv.args, vec!["login", "me@example.com"]);
    assert_eq!(list_entries().args, vec!["ls", "--color=never"]);
    let inv = run("beep.wav");
    assert_eq!(inv.program, "ffplay");
    assert_eq!(inv.args, vec!["-hide_banner", "-loglevel", "warning", "-nodisp", "-autoexit", "beep.wav"]);
}
