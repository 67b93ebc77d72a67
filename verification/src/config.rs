//! The effective configuration and how it is resolved from its layers.

use crate::charset::{clone_set, insert_char, is_mandatory, mandatory_set};
use crate::paths::{clone_path, join_path, path_from, path_joined, path_of};
use crate::segment::{default_order, default_segment_order, FilenameSegment};
use std::collections::HashSet;
use std::path::PathBuf;
use vstd::prelude::*;

verus! {

/// The settings that govern how a note is named and where it is put.
#[derive(Debug, PartialEq)]
pub struct Config {
    /// The directory in which notes are created.
    pub directory: PathBuf,
    /// The order in which segments appear in a file name.
    pub segment_order: [FilenameSegment; 5],
    /// The extension given to a note when none is asked for.
    pub default_extension: String,
    /// Whether a renamed note gets a fresh identifier.
    pub regenerate_identifier: bool,
    /// A file whose contents become the text of a new note.
    pub template_path: Option<PathBuf>,
    /// Characters that are removed from titles, signatures and keywords.
    pub illegal_characters: HashSet<char>,
}

/// What a [`Config`] holds, as mathematical values.
pub ghost struct ConfigView {
    pub directory: PathBuf,
    pub segment_order: Seq<FilenameSegment>,
    pub default_extension: Seq<char>,
    pub regenerate_identifier: bool,
    pub template_path: Option<PathBuf>,
    pub illegal_characters: Set<char>,
}

impl View for Config {
    type V = ConfigView;

    open spec fn view(&self) -> ConfigView {
        ConfigView {
            directory: self.directory,
            segment_order: self.segment_order@,
            default_extension: self.default_extension@,
            regenerate_identifier: self.regenerate_identifier,
            template_path: self.template_path,
            illegal_characters: self.illegal_characters@,
        }
    }
}

impl Clone for Config {
    fn clone(&self) -> (copy: Config)
        ensures
            copy@ == self@,
    {
        Config {
            directory: clone_path(&self.directory),
            segment_order: self.segment_order,
            default_extension: self.default_extension.clone(),
            regenerate_identifier: self.regenerate_identifier,
            template_path: match &self.template_path {
                Some(path) => Some(clone_path(path)),
                None => None,
            },
            illegal_characters: clone_set(&self.illegal_characters),
        }
    }
}

/// Collects the values that were given explicitly, and optionally the
/// configuration read from a file, before a [`Config`] is built from them.
#[derive(Debug)]
pub struct ConfigBuilder {
    base_config: Option<Config>,
    file_directory: Option<String>,
    file_default_extension: Option<String>,
    file_regenerate_identifier: bool,
    file_template_path: Option<PathBuf>,
}

/// What a [`ConfigBuilder`] holds, as mathematical values.
pub ghost struct BuilderView {
    pub base_config: Option<ConfigView>,
    pub directory: Option<Seq<char>>,
    pub default_extension: Option<Seq<char>>,
    pub regenerate_identifier: bool,
    pub template_path: Option<PathBuf>,
}

impl View for ConfigBuilder {
    type V = BuilderView;

    closed spec fn view(&self) -> BuilderView {
        BuilderView {
            base_config: match self.base_config {
                Some(config) => Some(config@),
                None => None,
            },
            directory: match self.file_directory {
                Some(text) => Some(text@),
                None => None,
            },
            default_extension: match self.file_default_extension {
                Some(text) => Some(text@),
                None => None,
            },
            regenerate_identifier: self.file_regenerate_identifier,
            template_path: self.file_template_path,
        }
    }
}

/// A builder in which nothing has been set.
pub open spec fn empty_builder() -> BuilderView {
    BuilderView {
        base_config: None,
        directory: None,
        default_extension: None,
        regenerate_identifier: false,
        template_path: None,
    }
}

/// The characters that are illegal unless a configuration says otherwise.
pub open spec fn default_illegal_set() -> Set<char> {
    set![
        '[', ']', '{', '}', '(', ')', '!', '#', '$', '%', '^', '&', '*', '+', '\'', '\\', '"', '?',
        ',', '|', ';', ':', '~', '`', '\u{2018}', '\u{2019}', '\u{201C}', '\u{201D}', '/', ' ',
        '@', '=', '-', '_', '.',
    ]
}

/// The configuration that holds when nothing is configured: notes go to the
/// current directory and get the extension `txt`.
pub open spec fn default_config() -> ConfigView {
    ConfigView {
        directory: path_of("."@),
        segment_order: default_order(),
        default_extension: "txt"@,
        regenerate_identifier: false,
        template_path: None,
        illegal_characters: default_illegal_set(),
    }
}

/// The configuration that results from three layers. A value given
/// explicitly wins over the file's, and the file's over the default. Two
/// fields are merged instead: the identifier is regenerated as soon as any
/// layer asks for it, and the reserved characters and the path separator
/// are illegal whatever the
/// layers say.
pub open spec fn resolved(
    values: BuilderView,
    file_config: Option<ConfigView>,
    defaults: ConfigView,
) -> ConfigView {
    let base = match file_config {
        Some(config) => config,
        None => defaults,
    };
    ConfigView {
        directory: match values.directory {
            Some(text) => path_of(text),
            None => base.directory,
        },
        segment_order: base.segment_order,
        default_extension: match values.default_extension {
            Some(text) => text,
            None => base.default_extension,
        },
        regenerate_identifier: values.regenerate_identifier || base.regenerate_identifier
            || defaults.regenerate_identifier,
        template_path: match values.template_path {
            Some(path) => Some(path),
            None => base.template_path,
        },
        illegal_characters: base.illegal_characters.union(mandatory_set()),
    }
}

/// Returns the extension `txt`.
pub fn default_file_extension() -> (extension: String)
    ensures
        extension@ == "txt"@,
{
    "txt".to_owned()
}

/// Returns the characters of [`default_illegal_set`].
pub fn default_illegal_characters() -> (set: HashSet<char>)
    ensures
        set@ == default_illegal_set(),
{
    let listed: [char; 35] = [
        '[', ']', '{', '}', '(', ')', '!', '#', '$', '%', '^', '&', '*', '+', '\'', '\\', '"', '?',
        ',', '|', ';', ':', '~', '`', '\u{2018}', '\u{2019}', '\u{201C}', '\u{201D}', '/', ' ',
        '@', '=', '-', '_', '.',
    ];
    let mut set: HashSet<char> = HashSet::new();
    let mut i: usize = 0;
    while i < 35
        invariant
            i <= 35,
            listed@.len() == 35,
            set@ == listed@.take(i as int).to_set(),
        decreases 35 - i,
    {
        insert_char(&mut set, listed[i]);
        proof {
            let before = listed@.take(i as int);
            let after = listed@.take(i + 1);
            assert(after == before.push(listed@[i as int]));
            assert forall|c: char| after.to_set().contains(c) <==> before.to_set().insert(
                listed@[i as int],
            ).contains(c) by {
                if after.contains(c) {
                    let k = choose|k: int| 0 <= k < after.len() && after[k] == c;
                    if k < i {
                        assert(before[k] == c);
                    }
                }
                if before.contains(c) {
                    let k = choose|k: int| 0 <= k < before.len() && before[k] == c;
                    assert(after[k] == c);
                }
                assert(after[i as int] == listed@[i as int]);
            }
            assert(after.to_set() =~= before.to_set().insert(listed@[i as int]));
        }
        i += 1;
    }
    proof {
        assert(listed@.take(35) == listed@);
        assert forall|c: char| listed@.to_set().contains(c) implies default_illegal_set().contains(
            c,
        ) by {
            let k = choose|k: int| 0 <= k < listed@.len() && listed@[k] == c;
        }
        assert forall|c: char| default_illegal_set().contains(c) implies listed@.to_set().contains(
            c,
        ) by {
            let k: int = if c == '[' { 0 } else if c == ']' { 1 } else if c == '{' { 2 } else if c
                == '}' { 3 } else if c == '(' { 4 } else if c == ')' { 5 } else if c == '!' { 6 }
            else if c == '#' { 7 } else if c == '$' { 8 } else if c == '%' { 9 } else if c == '^' {
                10
            } else if c == '&' { 11 } else if c == '*' { 12 } else if c == '+' { 13 } else if c
                == '\'' { 14 } else if c == '\\' { 15 } else if c == '"' { 16 } else if c == '?' {
                17
            } else if c == ',' { 18 } else if c == '|' { 19 } else if c == ';' { 20 } else if c
                == ':' { 21 } else if c == '~' { 22 } else if c == '`' { 23 } else if c
                == '\u{2018}' { 24 } else if c == '\u{2019}' { 25 } else if c == '\u{201C}' { 26 }
            else if c == '\u{201D}' { 27 } else if c == '/' { 28 } else if c == ' ' { 29 } else if c
                == '@' { 30 } else if c == '=' { 31 } else if c == '-' { 32 } else if c == '_' {
                33
            } else { 34 };
            assert(listed@[k] == c);
        }
        assert(set@ =~= default_illegal_set());
    }
    set
}

impl Default for Config {
    fn default() -> (config: Config)
        ensures
            config@ == default_config(),
    {
        Config {
            directory: path_from("."),
            segment_order: default_segment_order(),
            default_extension: default_file_extension(),
            regenerate_identifier: false,
            template_path: None,
            illegal_characters: default_illegal_characters(),
        }
    }
}

impl Config {
    /// Creates a builder in which nothing is set.
    pub fn builder() -> (builder: ConfigBuilder)
        ensures
            builder@ == empty_builder(),
    {
        ConfigBuilder {
            base_config: None,
            file_directory: None,
            file_default_extension: None,
            file_regenerate_identifier: false,
            file_template_path: None,
        }
    }
}

impl Default for ConfigBuilder {
    fn default() -> (builder: ConfigBuilder)
        ensures
            builder@ == empty_builder(),
    {
        Config::builder()
    }
}

impl ConfigBuilder {
    /// Sets the configuration that was read from a file.
    pub fn with_base_config(self, value: Config) -> (builder: ConfigBuilder)
        ensures
            builder@ == (BuilderView { base_config: Some(value@), ..self@ }),
    {
        let mut builder = self;
        builder.base_config = Some(value);
        builder
    }

    /// Sets the directory in which notes are created.
    pub fn with_file_directory(self, value: String) -> (builder: ConfigBuilder)
        ensures
            builder@ == (BuilderView { directory: Some(value@), ..self@ }),
    {
        let mut builder = self;
        builder.file_directory = Some(value);
        builder
    }

    /// Sets the extension given to a note when none is asked for.
    pub fn with_file_default_extension(self, value: String) -> (builder: ConfigBuilder)
        ensures
            builder@ == (BuilderView { default_extension: Some(value@), ..self@ }),
    {
        let mut builder = self;
        builder.file_default_extension = Some(value);
        builder
    }

    /// Sets whether a renamed note gets a fresh identifier.
    pub fn with_file_regenerate_identifier(self, value: bool) -> (builder: ConfigBuilder)
        ensures
            builder@ == (BuilderView { regenerate_identifier: value, ..self@ }),
    {
        let mut builder = self;
        builder.file_regenerate_identifier = value;
        builder
    }

    /// Sets the file whose contents become the text of a new note.
    pub fn with_file_template_path(self, value: PathBuf) -> (builder: ConfigBuilder)
        ensures
            builder@ == (BuilderView { template_path: Some(value), ..self@ }),
    {
        let mut builder = self;
        builder.file_template_path = Some(value);
        builder
    }

    /// Builds the configuration from the values set on the builder, the file
    /// configuration set on it, and the built-in defaults, in that priority.
    pub fn build(&self) -> (config: Config)
        ensures
            config@ == resolved(self@, self@.base_config, default_config()),
            mandatory_set().subset_of(config@.illegal_characters),
    {
        let file_config = match &self.base_config {
            Some(config) => Some(config.clone()),
            None => None,
        };
        resolve(self, file_config, Config::default())
    }
}

/// Resolves the effective configuration from the values set explicitly on
/// `values`, the configuration read from a file if there was one, and the
/// defaults. A file configuration set on `values` itself is not consulted.
pub fn resolve(values: &ConfigBuilder, file_config: Option<Config>, defaults: Config) -> (config:
    Config)
    ensures
        config@ == resolved(
            values@,
            match file_config {
                Some(c) => Some(c@),
                None => None,
            },
            defaults@,
        ),
        mandatory_set().subset_of(config@.illegal_characters),
{
    let default_flag = defaults.regenerate_identifier;
    let base = match file_config {
        Some(config) => config,
        None => defaults,
    };
    let directory = match &values.file_directory {
        Some(text) => path_from(text.as_str()),
        None => base.directory,
    };
    let default_extension = match &values.file_default_extension {
        Some(text) => text.clone(),
        None => base.default_extension,
    };
    let template_path = match &values.file_template_path {
        Some(path) => Some(clone_path(path)),
        None => base.template_path,
    };
    let mut illegal_characters = base.illegal_characters;
    insert_char(&mut illegal_characters, '@');
    insert_char(&mut illegal_characters, '=');
    insert_char(&mut illegal_characters, '-');
    insert_char(&mut illegal_characters, '_');
    insert_char(&mut illegal_characters, '.');
    insert_char(&mut illegal_characters, '/');
    assert(illegal_characters@ =~= base.illegal_characters@.union(mandatory_set()));
    Config {
        directory,
        segment_order: base.segment_order,
        default_extension,
        regenerate_identifier: values.file_regenerate_identifier || base.regenerate_identifier
            || default_flag,
        template_path,
        illegal_characters,
    }
}

/// Every resolved configuration counts the reserved characters and the path
/// separator among the
/// illegal ones, whatever its layers hold.
pub proof fn lemma_resolved_reserves(
    values: BuilderView,
    file_config: Option<ConfigView>,
    defaults: ConfigView,
    c: char,
)
    requires
        is_mandatory(c),
    ensures
        resolved(values, file_config, defaults).illegal_characters.contains(c),
{
}

/// Where a configuration file is looked for.
#[derive(Debug, PartialEq)]
pub enum ConfigSource {
    /// The file was named by the user: it has to be read, and a failure to
    /// do so is an error.
    Named(PathBuf),
    /// The file in the user's configuration directory: it is read if it
    /// exists, and its absence is no error.
    Ambient(PathBuf),
    /// There is nowhere to look.
    Nowhere,
}

/// The name of the configuration file inside the configuration directory.
pub open spec fn config_file_name() -> Seq<char> {
    "dn.toml"@
}

/// Decides where the configuration file is looked for: at the path the user
/// gave, else in the configuration directory if one is known.
pub fn locate_config(provided_path: Option<&str>, config_directory: Option<&PathBuf>) -> (source:
    ConfigSource)
    ensures
        source == (match provided_path {
            Some(text) => ConfigSource::Named(path_of(text@)),
            None => match config_directory {
                Some(directory) => ConfigSource::Ambient(
                    path_joined(*directory, config_file_name()),
                ),
                None => ConfigSource::Nowhere,
            },
        }),
{
    match provided_path {
        Some(text) => ConfigSource::Named(path_from(text)),
        None => match config_directory {
            Some(directory) => ConfigSource::Ambient(join_path(directory, "dn.toml")),
            None => ConfigSource::Nowhere,
        },
    }
}

} // verus!
