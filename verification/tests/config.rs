use std::collections::HashSet;
use std::path::PathBuf;

use dn::config::{locate_config, resolve, Config, ConfigSource};
use dn::segment::FilenameSegment;

#[test]
fn builder_builds_defaults_if_unconfigured() {
    // Arrange
    let input = Config::builder();
    let expected = Config::default();

    // Act
    let result = input.build();

    // Assert
    assert_eq!(expected, result);
}

#[test]
fn builder_builds_base_config_defaults_if_provided() {
    // Arrange
    let base_config = Config {
        default_extension: "dj".to_owned(),
        regenerate_identifier: true,
        illegal_characters: HashSet::from(['a', '2', '@']),
        ..Default::default()
    };
    let input = Config::builder().with_base_config(base_config.clone());
    let expected_illegal_characters = HashSet::from(['a', '2', '@', '=', '-', '_', '.', '/']);
    let expected = Config {
        illegal_characters: expected_illegal_characters,
        ..base_config
    };

    // Act
    let result = input.build();

    // Assert
    assert_eq!(expected, result);
}

#[test]
fn builder_builds_with_supplied_values() {
    // Arrange
    let default_extension = "dj".to_owned();
    let directory = ".".to_owned();
    let regenerate_identifier = true;
    let template_path = "./template.txt".to_owned();

    let input = Config::builder()
        .with_file_default_extension(default_extension.clone())
        .with_file_directory(directory.clone())
        .with_file_regenerate_identifier(regenerate_identifier)
        .with_file_template_path(template_path.clone().into());

    let expected = Config {
        directory: directory.into(),
        default_extension,
        regenerate_identifier,
        template_path: Some(template_path.into()),
        ..Default::default()
    };

    // Act
    let result = input.build();

    // Assert
    assert_eq!(expected, result);
}

#[test]
fn built_config_illegal_characters_always_contains_path_separators() {
    // Arrange
    let base_config = Config {
        illegal_characters: HashSet::from(['a', '2', '@']),
        ..Default::default()
    };
    let input = Config::builder().with_base_config(base_config);
    let expected = HashSet::from(['a', '2', '@', '=', '-', '_', '.', '/']);

    // Act
    let result = input.build().illegal_characters;

    // Assert
    assert_eq!(expected, result);
}

#[test]
fn resolve_prefers_explicit_values_then_the_file_then_the_defaults() {
    let defaults = Config {
        directory: PathBuf::from("/default"),
        default_extension: "txt".to_owned(),
        template_path: Some(PathBuf::from("/default/template")),
        ..Default::default()
    };
    let file = Config {
        directory: PathBuf::from("/file"),
        default_extension: "md".to_owned(),
        template_path: None,
        illegal_characters: HashSet::from(['x']),
        ..Default::default()
    };
    let nothing = Config::builder();
    let from_defaults = resolve(&nothing, None, defaults.clone());
    assert_eq!(from_defaults.directory, PathBuf::from("/default"));
    assert_eq!(from_defaults.template_path, Some(PathBuf::from("/default/template")));
    let from_file = resolve(&nothing, Some(file.clone()), defaults.clone());
    assert_eq!(from_file.directory, PathBuf::from("/file"));
    assert_eq!(from_file.default_extension, "md");
    assert_eq!(from_file.template_path, None);
    assert_eq!(from_file.illegal_characters, HashSet::from(['x', '@', '=', '-', '_', '.', '/']));
    let explicit = Config::builder()
        .with_file_directory("/given".to_owned())
        .with_file_default_extension("org".to_owned());
    let from_values = resolve(&explicit, Some(file), defaults);
    assert_eq!(from_values.directory, PathBuf::from("/given"));
    assert_eq!(from_values.default_extension, "org");
}

#[test]
fn resolve_regenerates_if_any_layer_asks() {
    let asks = Config { regenerate_identifier: true, ..Default::default() };
    let nothing = Config::builder();
    assert!(resolve(&nothing, Some(asks.clone()), Config::default()).regenerate_identifier);
    assert!(resolve(&nothing, Some(Config::default()), asks.clone()).regenerate_identifier);
    assert!(resolve(&nothing, None, asks).regenerate_identifier);
    let explicit = Config::builder().with_file_regenerate_identifier(true);
    assert!(resolve(&explicit, None, Config::default()).regenerate_identifier);
    assert!(!resolve(&nothing, Some(Config::default()), Config::default()).regenerate_identifier);
}

#[test]
fn resolve_ignores_the_file_set_on_the_builder() {
    let base = Config { default_extension: "dj".to_owned(), ..Default::default() };
    let builder = Config::builder().with_base_config(base);
    assert_eq!(resolve(&builder, None, Config::default()).default_extension, "txt");
}

#[test]
fn reserved_characters_are_always_illegal() {
    let config = Config::builder()
        .with_base_config(Config { illegal_characters: HashSet::new(), ..Default::default() })
        .build();
    for c in ['@', '=', '-', '_', '.', '/'] {
        assert!(config.illegal_characters.contains(&c));
    }
    assert_eq!(config.illegal_characters.len(), 6);
}

#[test]
fn a_title_cannot_bring_a_path_separator_into_the_name() {
    let config = Config::builder()
        .with_base_config(Config { illegal_characters: HashSet::from(['x']), ..Default::default() })
        .build();
    assert!(config.illegal_characters.contains(&'/'));
    assert_eq!(dn::sanitize::sanitize("a/b", &config.illegal_characters), "ab");
}

#[test]
fn default_config_is_as_documented() {
    let config = Config::default();
    assert_eq!(config.directory, PathBuf::from("."));
    assert_eq!(config.default_extension, "txt");
    assert!(!config.regenerate_identifier);
    assert_eq!(config.template_path, None);
    assert_eq!(config.segment_order[2], FilenameSegment::Title);
    assert_eq!(config.illegal_characters.len(), 35);
    assert!(config.illegal_characters.contains(&'\u{201C}'));
    assert_eq!(FilenameSegment::default(), FilenameSegment::Title);
}

#[test]
fn locate_config_prefers_the_path_given() {
    let directory = PathBuf::from("/home/me/.config/dn");
    assert_eq!(
        locate_config(Some("my.toml"), Some(&directory)),
        ConfigSource::Named(PathBuf::from("my.toml"))
    );
    assert_eq!(
        locate_config(None, Some(&directory)),
        ConfigSource::Ambient(PathBuf::from("/home/me/.config/dn/dn.toml"))
    );
    assert_eq!(locate_config(None, None), ConfigSource::Nowhere);
}

#[test]
fn builder_default_is_the_empty_builder() {
    use_default_builder();
}

fn use_default_builder() {
    let built = dn::config::ConfigBuilder::default().build();
    assert_eq!(built, Config::default());
}
