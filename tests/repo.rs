use hamr::repo::{get_origin, OriginError};

#[test]
fn origin_url_is_read() {
    let config = "[core]\n\tbare = false\n[remote \"origin\"]\n\turl = git@github.com:gissleh/ngn4.git\n\tfetch = +refs/heads/*:refs/remotes/origin/*\n";
    assert_eq!(get_origin(config).unwrap(), "git@github.com:gissleh/ngn4.git");
}

#[test]
fn origin_missing() {
    let config = "[core]\n\tbare = false\n[remote \"upstream\"]\n\turl = x\n";
    assert_eq!(get_origin(config), Err(OriginError::NoOrigin));
}

#[test]
fn origin_without_url() {
    let config = "[remote \"origin\"]\n\tfetch = y\n";
    assert_eq!(get_origin(config), Err(OriginError::NoUrl));
}

#[test]
fn origin_config_malformed() {
    assert!(matches!(get_origin("[unclosed\n"), Err(OriginError::Unreadable(_))));
}
