use handheld_overlay::settings::Settings;

#[test]
fn defaults_hold_the_placeholder_texts() {
    let settings = Settings::defaults();
    assert_eq!(settings.username, "Your Name");
    assert_eq!(settings.game_title, "Your Game");
}

#[test]
fn missing_settings_fall_back_to_defaults_and_are_persisted() {
    let loaded = Settings::load_or_create(None);
    assert_eq!(loaded.settings.username, "Your Name");
    assert_eq!(loaded.settings.game_title, "Your Game");
    assert!(loaded.persist);
}

#[test]
fn stored_settings_are_used_as_they_are() {
    let stored = Settings { username: "Ada".to_string(), game_title: "Tetris".to_string() };
    let loaded = Settings::load_or_create(Some(stored));
    assert_eq!(loaded.settings.username, "Ada");
    assert_eq!(loaded.settings.game_title, "Tetris");
    assert!(!loaded.persist);
}

#[test]
fn persisted_defaults_load_back_unchanged() {
    let first = Settings::load_or_create(None);
    let second = Settings::load_or_create(Some(first.settings));
    assert_eq!(second.settings.username, "Your Name");
    assert_eq!(second.settings.game_title, "Your Game");
    assert!(!second.persist);
}

#[test]
fn defaults_survive_the_settings_file_format() {
    let created = Settings::load_or_create(None);
    assert!(created.persist);

    let mut table = toml::Table::new();
    table.insert("username".to_string(), toml::Value::String(created.settings.username));
    table.insert("game_title".to_string(), toml::Value::String(created.settings.game_title));
    let text = toml::to_string_pretty(&table).unwrap();

    let parsed: toml::Table = toml::from_str(&text).unwrap();
    let stored = Settings {
        username: parsed["username"].as_str().unwrap().to_string(),
        game_title: parsed["game_title"].as_str().unwrap().to_string(),
    };
    let loaded = Settings::load_or_create(Some(stored));
    assert_eq!(loaded.settings.username, "Your Name");
    assert_eq!(loaded.settings.game_title, "Your Game");
    assert!(!loaded.persist);
}
