use std::path::PathBuf;

use dn::codec::{decode, ParseError};
use dn::config::Config;
use dn::identifier::{generate_identifier, Timestamp};
use dn::planner::{
    create_metadata, is_identifier_text, plan_create, plan_rename, rename_metadata, Changes,
    NewNote,
};
use dn::segment::FilenameSegment;

fn no_changes() -> Changes {
    Changes {
        title: None,
        signature: None,
        extension: None,
        keywords: None,
        add_keywords: None,
        remove_keywords: None,
        regenerate_identifier: false,
    }
}

fn now() -> Timestamp {
    Timestamp::new(2025, 3, 9, 7, 5, 1).unwrap()
}

#[test]
fn create_example_from_title_and_keywords() {
    let config = Config::builder().with_file_directory("/notes".to_owned()).build();
    let request = NewNote {
        title: Some("My First Note!".to_owned()),
        signature: None,
        keywords: Some("draft, idea".to_owned()),
        extension: None,
    };
    let plan = plan_create(&request, &config, &now());
    let identifier = generate_identifier(&now());
    assert_eq!(identifier, "20250309T070501");
    assert_eq!(plan.name, format!("{identifier}--my-first-note__draft_idea.txt"));
    assert_eq!(plan.path, PathBuf::from(format!("/notes/{identifier}--my-first-note__draft_idea.txt")));
    assert_eq!(plan.template, None);
    assert_eq!(decode(&plan.name), Ok(create_metadata(&request, &config, &now())));
}

#[test]
fn create_hands_on_the_template() {
    let config = Config::builder()
        .with_file_template_path(PathBuf::from("./template.txt"))
        .build();
    let request = NewNote { title: None, signature: None, keywords: None, extension: None };
    let plan = plan_create(&request, &config, &now());
    assert_eq!(plan.template, Some(PathBuf::from("./template.txt")));
    assert_eq!(plan.name, "20250309T070501.txt");
}

#[test]
fn create_prefers_the_extension_asked_for() {
    let config = Config::default();
    let request = NewNote {
        title: Some("t".to_owned()),
        signature: Some("S 1".to_owned()),
        keywords: None,
        extension: Some(".MD".to_owned()),
    };
    assert_eq!(plan_create(&request, &config, &now()).name, "20250309T070501==s-1--t.md");
}

#[test]
fn create_falls_back_when_the_extension_sanitises_to_nothing() {
    let config = Config::default();
    let request = NewNote {
        title: None,
        signature: None,
        keywords: None,
        extension: Some("...".to_owned()),
    };
    assert_eq!(create_metadata(&request, &config, &now()).extension, "txt");
}

#[test]
fn rename_example_changes_keywords_only() {
    let config = Config::default();
    let changes = Changes {
        add_keywords: Some("bar".to_owned()),
        remove_keywords: Some("foo".to_owned()),
        ..no_changes()
    };
    let plan = plan_rename(
        "20240101T120000--old-title__foo.txt",
        &PathBuf::from("/notes"),
        &changes,
        &config,
        &now(),
    )
    .unwrap();
    assert_eq!(plan.name, "20240101T120000--old-title__bar.txt");
    assert_eq!(plan.path, PathBuf::from("/notes/20240101T120000--old-title__bar.txt"));
}

#[test]
fn rename_keeps_the_identifier_to_the_letter() {
    let config = Config::default();
    let changes = Changes { title: Some("New Title".to_owned()), ..no_changes() };
    let plan =
        plan_rename("20240101T120000--old__k.txt", &PathBuf::from("."), &changes, &config, &now())
            .unwrap();
    assert_eq!(plan.name, "20240101T120000--new-title__k.txt");
    assert_eq!(decode(&plan.name).unwrap().identifier, Some("20240101T120000".to_owned()));
}

#[test]
fn rename_regenerates_when_asked() {
    let config = Config::default();
    let changes = Changes { regenerate_identifier: true, ..no_changes() };
    let plan =
        plan_rename("20240101T120000--old.txt", &PathBuf::from("."), &changes, &config, &now())
            .unwrap();
    assert_eq!(plan.name, "20250309T070501--old.txt");
}

#[test]
fn rename_regenerates_when_configured() {
    let config = Config::builder().with_file_regenerate_identifier(true).build();
    let plan = plan_rename(
        "20240101T120000--old.txt",
        &PathBuf::from("."),
        &no_changes(),
        &config,
        &now(),
    )
    .unwrap();
    assert_eq!(plan.name, "20250309T070501--old.txt");
}

#[test]
fn rename_gives_an_identifier_to_a_note_without_one() {
    let config = Config::default();
    let plan =
        plan_rename("randomfile.md", &PathBuf::from("."), &no_changes(), &config, &now()).unwrap();
    assert_eq!(plan.name, "20250309T070501.md");
}

#[test]
fn rename_uses_the_default_extension_when_there_is_none() {
    let config = Config::default();
    let plan = plan_rename(
        "20240101T120000--title",
        &PathBuf::from("."),
        &no_changes(),
        &config,
        &now(),
    )
    .unwrap();
    assert_eq!(plan.name, "20240101T120000--title.txt");
}

#[test]
fn rename_fails_on_a_name_that_cannot_be_read() {
    let config = Config::default();
    let result = plan_rename("note__", &PathBuf::from("."), &no_changes(), &config, &now());
    assert_eq!(result, Err(ParseError::Unterminated(FilenameSegment::Keywords)));
}

#[test]
fn rename_replaces_keywords() {
    let config = Config::default();
    let changes = Changes {
        keywords: Some("x, y".to_owned()),
        add_keywords: Some("z".to_owned()),
        remove_keywords: Some("y".to_owned()),
        signature: Some("5".to_owned()),
        extension: Some("org".to_owned()),
        ..no_changes()
    };
    let plan =
        plan_rename("20240101T120000--t__a_b.txt", &PathBuf::from("."), &changes, &config, &now())
            .unwrap();
    assert_eq!(plan.name, "20240101T120000==5--t__x_z.org");
}

#[test]
fn rename_metadata_replaces_a_malformed_identifier() {
    let config = Config::default();
    let mut current = decode("--t.txt").unwrap();
    current.identifier = Some("not-an-identifier".to_owned());
    let renamed = rename_metadata(&current, &no_changes(), &config, &now());
    assert_eq!(renamed.identifier, Some("20250309T070501".to_owned()));
}

#[test]
fn rename_follows_the_configured_order() {
    let mut config = Config::default();
    config.segment_order = [
        FilenameSegment::Title,
        FilenameSegment::Keywords,
        FilenameSegment::Identifier,
        FilenameSegment::Signature,
        FilenameSegment::Extension,
    ];
    let plan = plan_rename(
        "20240101T120000--old-title__foo.txt",
        &PathBuf::from("."),
        &no_changes(),
        &config,
        &now(),
    )
    .unwrap();
    assert_eq!(plan.name, "--old-title__foo@@20240101T120000.txt");
    assert_eq!(
        decode(&plan.name),
        decode("20240101T120000--old-title__foo.txt")
    );
}

#[test]
fn identifier_text_is_recognised() {
    assert!(is_identifier_text("20240101T120000"));
    assert!(!is_identifier_text("20240101t120000"));
    assert!(!is_identifier_text("20240101T12000"));
    assert!(!is_identifier_text(""));
}

#[test]
fn create_keeps_path_separators_out_of_the_name() {
    let mut config = Config::builder().with_file_directory("/notes".to_owned()).build();
    config.illegal_characters.clear();
    let request = NewNote {
        title: Some("../up/and away".to_owned()),
        signature: Some("a/b".to_owned()),
        keywords: Some("x/y, /".to_owned()),
        extension: Some("t/xt".to_owned()),
    };
    let plan = plan_create(&request, &config, &now());
    assert_eq!(plan.name, "20250309T070501==ab--upand-away__xy.txt");
    assert_eq!(plan.path, PathBuf::from("/notes/20250309T070501==ab--upand-away__xy.txt"));
    assert!(!plan.name.contains('/'));
}

#[test]
fn rename_keeps_path_separators_out_of_the_name() {
    let config = Config::default();
    let changes = Changes { title: Some("a/b".to_owned()), ..no_changes() };
    let plan =
        plan_rename("20240101T120000--old.txt", &PathBuf::from("/notes"), &changes, &config, &now())
            .unwrap();
    assert_eq!(plan.name, "20240101T120000--ab.txt");
    assert_eq!(plan.path, PathBuf::from("/notes/20240101T120000--ab.txt"));
}
