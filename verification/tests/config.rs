use manahg::config::{
    default_show_full_path, default_theme_idx, load_config, save_config, settle_config,
    update_preferences, AppConfig,
};
use manahg::repo::Repository;
use serde_json::{Number, Value};

fn texts(items: &[&str]) -> Vec<String> {
    items.iter().map(|s| s.to_string()).collect()
}

/// The document of the current form for `config`.
fn to_document(config: &AppConfig) -> String {
    let mut fields = serde_json::Map::new();
    fields.insert(
        "repositories".to_string(),
        Value::Array(config.repositories.iter().map(|p| Value::String(p.clone())).collect()),
    );
    fields.insert("theme_idx".to_string(), Value::Number(Number::from(config.theme_idx as u64)));
    fields.insert("show_full_path".to_string(), Value::Bool(config.show_full_path));
    serde_json::to_string_pretty(&Value::Object(fields)).unwrap()
}

fn paths_in(value: &Value) -> Option<Vec<String>> {
    value.as_array()?.iter().map(|p| p.as_str().map(|s| s.to_string())).collect()
}

/// The document read in the current form, where the theme index and the
/// display preference may be missing.
fn read_current(text: &str) -> Option<AppConfig> {
    let value: Value = serde_json::from_str(text).ok()?;
    let fields = value.as_object()?;
    Some(AppConfig {
        repositories: paths_in(fields.get("repositories")?)?,
        theme_idx: match fields.get("theme_idx") {
            Some(idx) => idx.as_u64()? as usize,
            None => default_theme_idx(),
        },
        show_full_path: match fields.get("show_full_path") {
            Some(flag) => flag.as_bool()?,
            None => default_show_full_path(),
        },
    })
}

fn read(text: &str) -> AppConfig {
    load_config(read_current(text), Some(text))
}

#[test]
fn the_defaults_track_nothing_and_show_whole_paths() {
    let config = AppConfig::default();
    assert_eq!(config.repositories, Vec::<String>::new());
    assert_eq!(config.theme_idx, 0);
    assert!(config.show_full_path);
    assert!(default_show_full_path());
    assert_eq!(default_theme_idx(), 0);
}

#[test]
fn the_current_form_wins_over_the_older_form_and_the_defaults() {
    let current = AppConfig { repositories: texts(&["/srv/a"]), theme_idx: 3, show_full_path: false };
    assert_eq!(settle_config(Some(current.clone()), Some(texts(&["/srv/b"]))), current);
    assert_eq!(settle_config(Some(current.clone()), None), current);
    assert_eq!(
        settle_config(None, Some(texts(&["/srv/b", "/srv/c"]))),
        AppConfig { repositories: texts(&["/srv/b", "/srv/c"]), theme_idx: 0, show_full_path: true }
    );
    assert_eq!(settle_config(None, None), AppConfig::default());
}

#[test]
fn the_text_of_the_document_is_read_in_the_older_form() {
    let current = AppConfig { repositories: texts(&["/srv/a"]), theme_idx: 3, show_full_path: false };
    assert_eq!(load_config(Some(current.clone()), Some("[\"/srv/b\"]")), current);
    assert_eq!(load_config(Some(current.clone()), None), current);
    assert_eq!(
        load_config(None, Some(" [\"/srv/b\", \"C:\\\\work\\\\r1\", \"/srv/\\u00e9\"]\n")),
        AppConfig {
            repositories: texts(&["/srv/b", "C:\\work\\r1", "/srv/\u{e9}"]),
            theme_idx: 0,
            show_full_path: true
        }
    );
    assert_eq!(load_config(None, Some("[\"/srv/b\"")), AppConfig::default());
    assert_eq!(load_config(None, Some("\"/srv/b\"")), AppConfig::default());
    assert_eq!(load_config(None, Some("[\"/srv/b\", 7]")), AppConfig::default());
    assert_eq!(load_config(None, Some("{}")), AppConfig::default());
    assert_eq!(load_config(None, None), AppConfig::default());
}

#[test]
fn a_stored_configuration_reads_back_equal() {
    let configs = [
        AppConfig::default(),
        AppConfig { repositories: texts(&["/srv/a", "/srv/b"]), theme_idx: 4, show_full_path: false },
        AppConfig { repositories: texts(&["C:\\work\\r \"1\"", "/srv/é", "/srv/a", "/srv/a"]), theme_idx: 1, show_full_path: true },
    ];
    for config in configs {
        assert_eq!(read(&to_document(&config)), config);
    }
}

#[test]
fn a_bare_list_of_paths_reads_with_the_defaults_filled_in() {
    assert_eq!(
        read("[\"/srv/a\", \"/srv/b\"]"),
        AppConfig { repositories: texts(&["/srv/a", "/srv/b"]), theme_idx: 0, show_full_path: true }
    );
    assert_eq!(read("[]"), AppConfig::default());
}

#[test]
fn a_document_without_the_display_preference_shows_whole_paths() {
    assert_eq!(
        read("{\"repositories\": [\"/srv/a\"], \"theme_idx\": 2}"),
        AppConfig { repositories: texts(&["/srv/a"]), theme_idx: 2, show_full_path: true }
    );
}

#[test]
fn a_document_without_the_theme_index_keeps_its_paths() {
    assert_eq!(
        read("{\"repositories\": [\"/srv/a\", \"/srv/b\"]}"),
        AppConfig { repositories: texts(&["/srv/a", "/srv/b"]), theme_idx: 0, show_full_path: true }
    );
    assert_eq!(
        read("{\"repositories\": [\"/srv/a\"], \"show_full_path\": false}"),
        AppConfig { repositories: texts(&["/srv/a"]), theme_idx: 0, show_full_path: false }
    );
}

#[test]
fn a_document_that_reads_in_neither_form_gives_the_defaults() {
    assert_eq!(read("not a document"), AppConfig::default());
    assert_eq!(read("{\"theme_idx\": 1}"), AppConfig::default());
    assert_eq!(read("{\"repositories\": \"/srv/a\", \"theme_idx\": 1}"), AppConfig::default());
    assert_eq!(read("[1, 2]"), AppConfig::default());
    assert_eq!(read(""), AppConfig::default());
}

#[test]
fn what_is_stored_is_the_paths_in_order_and_the_preferences() {
    let mut a = Repository::new("/srv/b".to_string());
    a.current_branch = "default".to_string();
    a.last_status = "Ready".to_string();
    let repos = vec![a, Repository::new("/srv/a".to_string())];
    assert_eq!(
        save_config(&repos, 2, false),
        AppConfig { repositories: texts(&["/srv/b", "/srv/a"]), theme_idx: 2, show_full_path: false }
    );
    assert_eq!(
        save_config(&[], 0, true),
        AppConfig { repositories: Vec::new(), theme_idx: 0, show_full_path: true }
    );
    let stored = save_config(&repos, 1, true);
    assert_eq!(stored.clone(), stored);
}

#[test]
fn preferences_change_only_where_they_differ_and_fit() {
    assert_eq!(update_preferences(0, true, 0, true, 5), (0, true, false));
    assert_eq!(update_preferences(0, true, 3, true, 5), (3, true, true));
    assert_eq!(update_preferences(0, true, 0, false, 5), (0, false, true));
    assert_eq!(update_preferences(1, false, 4, true, 5), (4, true, true));
    assert_eq!(update_preferences(1, false, 5, false, 5), (1, false, false));
    assert_eq!(update_preferences(1, false, 9, true, 5), (1, true, true));
    assert_eq!(update_preferences(7, true, 2, true, 0), (7, true, false));
}
