use quagmire::config::Config;
use quagmire::config::Macro;

fn read_config(t: &str) -> Config {
    let table: toml::Table = t.parse().unwrap();
    let mut config = Config::new();
    for (name, entry) in table["macros"].as_table().unwrap() {
        let commands = entry["commands"]
            .as_array()
            .unwrap()
            .iter()
            .map(|command| command.as_str().unwrap().to_string())
            .collect();
        config.define_macro(name.clone(), commands);
    }
    config
}

#[test]
fn macros_simple() {
    let config = read_config(
        r#"
        [macros.foo]
        commands = ["look", "who"]
        "#,
    );

    assert_eq!(config.expand_macro("foo"), Some("look\nwho".to_string()));
    assert_eq!(config.expand_macro("bar"), None);
}

#[test]
fn new_config_has_no_macros() {
    let config = Config::new();
    assert_eq!(config.expand_macro("foo"), None);
    assert_eq!(config.expand_macro(""), None);
}

#[test]
fn macro_of_one_line_expands_to_that_line() {
    assert_eq!(Macro::new(vec!["look".to_string()]).expand(), "look");
}

#[test]
fn macro_without_lines_expands_to_nothing() {
    assert_eq!(Macro::new(vec![]).expand(), "");
}

#[test]
fn macro_lines_are_joined_by_line_feeds() {
    let lines = vec!["n".to_string(), "".to_string(), "open door".to_string()];
    assert_eq!(Macro::new(lines).expand(), "n\n\nopen door");
}

#[test]
fn later_definition_replaces_earlier() {
    let mut config = Config::new();
    config.define_macro("go".to_string(), vec!["north".to_string()]);
    config.define_macro("go".to_string(), vec!["south".to_string(), "east".to_string()]);
    config.define_macro("stay".to_string(), vec!["rest".to_string()]);
    assert_eq!(config.expand_macro("go"), Some("south\neast".to_string()));
    assert_eq!(config.expand_macro("stay"), Some("rest".to_string()));
    assert_eq!(config.expand_macro("Go"), None);
}
