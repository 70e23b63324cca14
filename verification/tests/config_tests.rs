use autocommit::config::Config;

fn sample() -> Config {
    Config::new(
        vec!["/path/config.conf".to_string(), "/path/config-directory/".to_string()],
        "/path/git_clones/repo".to_string(),
        "origin".to_string(),
        "refs/heads/master:refs/heads/master".to_string(),
    )
}

#[test]
fn getters_hand_out_what_was_put_in() {
    let config = sample();
    assert_eq!(
        config.files_to_watch(),
        vec!["/path/config.conf".to_string(), "/path/config-directory/".to_string()]
    );
    assert_eq!(config.destination_repo(), "/path/git_clones/repo");
    assert_eq!(config.remote(), "origin");
    assert_eq!(config.refs(), "refs/heads/master:refs/heads/master");
}

#[test]
fn getters_hand_out_copies() {
    let config = sample();
    let mut paths = config.files_to_watch();
    paths.clear();
    let mut remote = config.remote();
    remote.push_str("-changed");
    assert_eq!(config.files_to_watch().len(), 2);
    assert_eq!(config.remote(), "origin");
}

#[test]
fn an_empty_set_up_is_held_as_it_is() {
    let config = Config::new(Vec::new(), String::new(), String::new(), String::new());
    assert!(config.files_to_watch().is_empty());
    assert_eq!(config.destination_repo(), "");
    assert_eq!(config.remote(), "");
    assert_eq!(config.refs(), "");
}
