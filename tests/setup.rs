use clean_history::config::{config, parse_json_object, Json};
use clean_history::paths::{backup_file_name, get_config_path, get_histfile_path, get_temp_file};

fn s(v: &str) -> Option<String> {
    Some(v.to_string())
}

#[test]
fn test_get_histfile_path_histfile_set() {
    assert_eq!(
        get_histfile_path(s("/home/user/.config/zsh/history"), s("/home/config"), s("/home")).unwrap(),
        "/home/user/.config/zsh/history"
    );
}

#[test]
fn test_get_histfile_path_xdg_config_home_set() {
    assert_eq!(
        get_histfile_path(None, s("/home/user/config"), s("/home/")).unwrap(),
        "/home/user/config/zsh/histfile"
    );
}

#[test]
fn test_get_histfile_path_home_set() {
    assert_eq!(
        get_histfile_path(None, None, s("/home/user")).unwrap(),
        "/home/user/.config/zsh/histfile"
    );
}

#[test]
fn histfile_path_needs_some_variable() {
    assert_eq!(get_histfile_path(None, None, None), None);
}

#[test]
fn config_path_from_xdg_config_home() {
    assert_eq!(
        get_config_path(s("/home/user/config"), s("/home/user")).unwrap(),
        "/home/user/config/clean-history/config.json"
    );
}

#[test]
fn config_path_from_home() {
    assert_eq!(
        get_config_path(None, s("/home/user")).unwrap(),
        "/home/user/.config/clean-history/config.json"
    );
    assert_eq!(get_config_path(None, None), None);
}

#[test]
fn temp_file_sits_beside_history() {
    assert_eq!(get_temp_file("/home/user/.histfile"), "/home/user/.histfile.tmp");
    assert_eq!(get_temp_file("histfile"), "histfile.tmp");
    assert_eq!(get_temp_file("dir/zsh_history"), "dir/zsh_history.tmp");
}

#[test]
fn temp_file_without_file_name() {
    assert_eq!(get_temp_file("/"), "/histfile.tmp");
}

#[test]
fn backup_file_names() {
    assert_eq!(backup_file_name(s(".zsh_history")), ".zsh_history.tmp");
    assert_eq!(backup_file_name(None), "histfile.tmp");
}

#[test]
fn config_reads_every_setting() {
    let c = config(
        r#"{"histfile": "/h/hist", "blacklist": ["ls", 3, "rm -rf /"], "max_char_limit": 80, "min_char_limit": 2}"#,
    )
    .unwrap();
    assert_eq!(c.histfile, s("/h/hist"));
    assert_eq!(c.blacklist, Some(vec!["ls".to_string(), "rm -rf /".to_string()]));
    assert_eq!(c.max_char_limit, Some(80));
    assert_eq!(c.min_char_limit, Some(2));
}

#[test]
fn config_settings_of_wrong_kind_are_none() {
    let c = config(r#"{"histfile": 5, "blacklist": "ls", "max_char_limit": -1, "min_char_limit": 1.5}"#)
        .unwrap();
    assert_eq!(c.histfile, None);
    assert_eq!(c.blacklist, None);
    assert_eq!(c.max_char_limit, None);
    assert_eq!(c.min_char_limit, None);
}

#[test]
fn config_of_empty_object_or_array() {
    let c = config("{}").unwrap();
    assert!(c.histfile.is_none() && c.blacklist.is_none());
    let c = config("[1, 2]").unwrap();
    assert!(c.max_char_limit.is_none() && c.min_char_limit.is_none());
}

#[test]
fn config_rejects_invalid_json() {
    assert!(config("{\"histfile\": ").is_none());
    assert!(config("not json").is_none());
}

#[test]
fn parse_json_object_on_model() {
    let j = Json::Object(vec![
        ("min_char_limit".to_string(), Json::Number(Some(3))),
        ("blacklist".to_string(), Json::Array(vec![Json::Text("a".to_string()), Json::Null])),
        ("histfile".to_string(), Json::Null),
    ]);
    let c = parse_json_object(&j);
    assert_eq!(c.min_char_limit, Some(3));
    assert_eq!(c.max_char_limit, None);
    assert_eq!(c.blacklist, Some(vec!["a".to_string()]));
    assert_eq!(c.histfile, None);
}

#[test]
fn histfile_setting_used_as_given() {
    assert_eq!(get_histfile_path(s("relative/hist"), None, None).unwrap(), "relative/hist");
    assert_eq!(get_config_path(s("/cfg/"), None).unwrap(), "/cfg/clean-history/config.json");
}
