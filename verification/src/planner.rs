//! Planning the two operations on notes: creating one and renaming one.
//!
//! A plan says what the file is to be called and where it is to lie. Nothing
//! here touches the file system.

use crate::charset::has_no_path_separator;
use crate::codec::{
    decode, decoded, encode, encoded, lemma_encoded_has_no_path_separator, ParseError,
};
use crate::config::{Config, ConfigView};
use crate::identifier::{
    generate_identifier, identifier_of, is_identifier, lemma_identifier_shape, DateTime, Timestamp,
};
use crate::keywords::{
    clean_keywords, cleaned, fields, lemma_cleaned, lemma_resolved_keywords, resolve_keywords,
    resolved_keywords, split_list,
};
use crate::metadata::{optional_text, texts, Metadata, NoteMetadata};
use crate::paths::{clone_path, join_path, path_joined};
use crate::round_trip::lemma_round_trip;
use crate::sanitize::{
    lemma_sanitized_clean, lemma_sanitized_has_no_path_separator, sanitize, sanitized,
};
use crate::segment::names_every_segment;
use crate::text::chars_of;
use std::collections::HashSet;
use std::path::PathBuf;
use vstd::prelude::*;

verus! {

/// What the user asks of a new note, as typed.
#[derive(Debug, PartialEq, Eq)]
pub struct NewNote {
    pub title: Option<String>,
    pub signature: Option<String>,
    /// The keywords, separated by commas.
    pub keywords: Option<String>,
    pub extension: Option<String>,
}

/// What a [`NewNote`] holds, as mathematical values.
pub ghost struct NewNoteView {
    pub title: Option<Seq<char>>,
    pub signature: Option<Seq<char>>,
    pub keywords: Option<Seq<char>>,
    pub extension: Option<Seq<char>>,
}

impl View for NewNote {
    type V = NewNoteView;

    open spec fn view(&self) -> NewNoteView {
        NewNoteView {
            title: optional_text(self.title),
            signature: optional_text(self.signature),
            keywords: optional_text(self.keywords),
            extension: optional_text(self.extension),
        }
    }
}

/// What the user asks to change about a note, as typed. The lists of
/// keywords are separated by commas.
#[derive(Debug, PartialEq, Eq)]
pub struct Changes {
    pub title: Option<String>,
    pub signature: Option<String>,
    pub extension: Option<String>,
    /// Keywords that replace those of the note.
    pub keywords: Option<String>,
    /// Keywords that are added.
    pub add_keywords: Option<String>,
    /// Keywords that are removed.
    pub remove_keywords: Option<String>,
    /// Whether the note gets a fresh identifier.
    pub regenerate_identifier: bool,
}

/// What [`Changes`] hold, as mathematical values.
pub ghost struct ChangesView {
    pub title: Option<Seq<char>>,
    pub signature: Option<Seq<char>>,
    pub extension: Option<Seq<char>>,
    pub keywords: Option<Seq<char>>,
    pub add_keywords: Option<Seq<char>>,
    pub remove_keywords: Option<Seq<char>>,
    pub regenerate_identifier: bool,
}

impl View for Changes {
    type V = ChangesView;

    open spec fn view(&self) -> ChangesView {
        ChangesView {
            title: optional_text(self.title),
            signature: optional_text(self.signature),
            extension: optional_text(self.extension),
            keywords: optional_text(self.keywords),
            add_keywords: optional_text(self.add_keywords),
            remove_keywords: optional_text(self.remove_keywords),
            regenerate_identifier: self.regenerate_identifier,
        }
    }
}

/// Where a new note goes.
#[derive(Debug, PartialEq)]
pub struct CreatePlan {
    /// The file name of the note.
    pub name: String,
    /// The path of the note.
    pub path: PathBuf,
    /// The file whose contents the note starts with, if any.
    pub template: Option<PathBuf>,
}

/// Where a renamed note goes.
#[derive(Debug, PartialEq)]
pub struct RenamePlan {
    /// The new file name of the note.
    pub name: String,
    /// The new path of the note.
    pub path: PathBuf,
}

/// The text of a segment: what was typed, sanitised; nothing where nothing
/// was typed or nothing is left of it.
pub open spec fn segment_text(raw: Option<Seq<char>>, illegal: Set<char>) -> Option<Seq<char>> {
    match raw {
        Some(text) => if sanitized(text, illegal).len() == 0 {
            None
        } else {
            Some(sanitized(text, illegal))
        },
        None => None,
    }
}

/// The entries of a list that was typed; none where nothing was typed.
pub open spec fn listed(raw: Option<Seq<char>>) -> Seq<Seq<char>> {
    match raw {
        Some(text) => fields(text),
        None => Seq::empty(),
    }
}

/// The extension of a note: the first of the one asked for, the one the
/// note has and the configured default that is not empty once sanitised.
/// It is empty if all three are.
pub open spec fn chosen_extension(
    asked: Option<Seq<char>>,
    current: Seq<char>,
    configured: Seq<char>,
    illegal: Set<char>,
) -> Seq<char> {
    let first = match asked {
        Some(text) => sanitized(text, illegal),
        None => Seq::empty(),
    };
    if first.len() > 0 {
        first
    } else if sanitized(current, illegal).len() > 0 {
        sanitized(current, illegal)
    } else {
        sanitized(configured, illegal)
    }
}

/// The metadata of a note that is created at `now`.
pub open spec fn created(request: NewNoteView, config: ConfigView, now: DateTime) -> Metadata {
    Metadata {
        identifier: Some(identifier_of(now)),
        signature: segment_text(request.signature, config.illegal_characters),
        title: segment_text(request.title, config.illegal_characters),
        keywords: cleaned(listed(request.keywords), config.illegal_characters),
        extension: chosen_extension(
            request.extension,
            Seq::empty(),
            config.default_extension,
            config.illegal_characters,
        ),
    }
}

/// Whether a renamed note keeps its identifier: it has one, and neither the
/// changes nor the configuration ask for a fresh one.
pub open spec fn keeps_identifier(current: Metadata, changes: ChangesView, config: ConfigView) -> bool {
    &&& !changes.regenerate_identifier
    &&& !config.regenerate_identifier
    &&& current.identifier matches Some(id) && is_identifier(id)
}

/// The metadata of a note after it is renamed at `now`. Title, signature
/// and extension are replaced where the changes name one and kept where
/// they do not; the keywords change as [`resolved_keywords`] says.
pub open spec fn renamed(
    current: Metadata,
    changes: ChangesView,
    config: ConfigView,
    now: DateTime,
) -> Metadata {
    let illegal = config.illegal_characters;
    Metadata {
        identifier: if keeps_identifier(current, changes, config) {
            current.identifier
        } else {
            Some(identifier_of(now))
        },
        signature: match changes.signature {
            Some(text) => segment_text(Some(text), illegal),
            None => segment_text(current.signature, illegal),
        },
        title: match changes.title {
            Some(text) => segment_text(Some(text), illegal),
            None => segment_text(current.title, illegal),
        },
        keywords: resolved_keywords(
            current.keywords,
            match changes.keywords {
                Some(text) => Some(fields(text)),
                None => None,
            },
            listed(changes.add_keywords),
            listed(changes.remove_keywords),
            illegal,
        ),
        extension: chosen_extension(
            changes.extension,
            current.extension,
            config.default_extension,
            illegal,
        ),
    }
}

/// The metadata of a new note can be written into a file name and read
/// back.
pub proof fn lemma_created_well_formed(request: NewNoteView, config: ConfigView, now: DateTime)
    requires
        now.is_valid(),
    ensures
        created(request, config, now).is_well_formed(),
{
    let illegal = config.illegal_characters;
    lemma_identifier_shape(now);
    lemma_segment_text_clean(request.signature, illegal);
    lemma_segment_text_clean(request.title, illegal);
    lemma_cleaned(listed(request.keywords), illegal);
    lemma_chosen_extension_clean(
        request.extension,
        Seq::empty(),
        config.default_extension,
        illegal,
    );
}

/// The metadata of a renamed note can be written into a file name and read
/// back.
pub proof fn lemma_renamed_well_formed(
    current: Metadata,
    changes: ChangesView,
    config: ConfigView,
    now: DateTime,
)
    requires
        now.is_valid(),
    ensures
        renamed(current, changes, config, now).is_well_formed(),
{
    let illegal = config.illegal_characters;
    lemma_identifier_shape(now);
    lemma_segment_text_clean(changes.signature, illegal);
    lemma_segment_text_clean(current.signature, illegal);
    lemma_segment_text_clean(changes.title, illegal);
    lemma_segment_text_clean(current.title, illegal);
    lemma_resolved_keywords(
        current.keywords,
        match changes.keywords {
            Some(text) => Some(fields(text)),
            None => None,
        },
        listed(changes.add_keywords),
        listed(changes.remove_keywords),
        illegal,
    );
    lemma_chosen_extension_clean(
        changes.extension,
        current.extension,
        config.default_extension,
        illegal,
    );
}

proof fn lemma_segment_text_clean(raw: Option<Seq<char>>, illegal: Set<char>)
    ensures
        segment_text(raw, illegal) matches Some(text) ==> crate::sanitize::is_clean(text),
{
    if let Some(text) = raw {
        lemma_sanitized_clean(text, illegal);
    }
}

proof fn lemma_chosen_extension_clean(
    asked: Option<Seq<char>>,
    current: Seq<char>,
    configured: Seq<char>,
    illegal: Set<char>,
)
    ensures
        chosen_extension(asked, current, configured, illegal).len() == 0
            || crate::sanitize::is_clean(chosen_extension(asked, current, configured, illegal)),
{
    if let Some(text) = asked {
        lemma_sanitized_clean(text, illegal);
    }
    lemma_sanitized_clean(current, illegal);
    lemma_sanitized_clean(configured, illegal);
}

proof fn lemma_identifier_has_no_path_separator(s: Seq<char>)
    requires
        is_identifier(s),
    ensures
        has_no_path_separator(s),
{
    assert forall|i: int| 0 <= i < s.len() implies #[trigger] s[i] != '/' by {
        if i != 8 {
            assert(crate::identifier::is_digit(s[i]));
        }
    }
}

proof fn lemma_chosen_extension_has_no_path_separator(
    asked: Option<Seq<char>>,
    current: Seq<char>,
    configured: Seq<char>,
    illegal: Set<char>,
)
    ensures
        has_no_path_separator(chosen_extension(asked, current, configured, illegal)),
{
    if let Some(text) = asked {
        lemma_sanitized_has_no_path_separator(text, illegal);
    }
    lemma_sanitized_has_no_path_separator(current, illegal);
    lemma_sanitized_has_no_path_separator(configured, illegal);
}

proof fn lemma_segment_text_has_no_path_separator(raw: Option<Seq<char>>, illegal: Set<char>)
    ensures
        segment_text(raw, illegal) matches Some(text) ==> has_no_path_separator(text),
{
    if let Some(text) = raw {
        lemma_sanitized_has_no_path_separator(text, illegal);
    }
}

proof fn lemma_cleaned_has_no_path_separator(raw: Seq<Seq<char>>, illegal: Set<char>)
    ensures
        forall|i: int|
            0 <= i < cleaned(raw, illegal).len() ==> has_no_path_separator(
                #[trigger] cleaned(raw, illegal)[i],
            ),
{
    lemma_cleaned(raw, illegal);
    let out = cleaned(raw, illegal);
    assert forall|i: int| 0 <= i < out.len() implies has_no_path_separator(#[trigger] out[i]) by {
        let j = choose|j: int| 0 <= j < raw.len() && out[i] == sanitized(raw[j], illegal);
        lemma_sanitized_has_no_path_separator(raw[j], illegal);
    }
}

/// The name of a new note holds no path separator, whatever was typed and
/// whatever is configured: it names a file in the directory it is put in.
pub proof fn lemma_created_is_a_name(request: NewNoteView, config: ConfigView, now: DateTime)
    requires
        now.is_valid(),
    ensures
        created(request, config, now).has_no_path_separator(),
        has_no_path_separator(encoded(created(request, config, now), config.segment_order)),
{
    let illegal = config.illegal_characters;
    lemma_identifier_shape(now);
    lemma_identifier_has_no_path_separator(identifier_of(now));
    lemma_segment_text_has_no_path_separator(request.signature, illegal);
    lemma_segment_text_has_no_path_separator(request.title, illegal);
    lemma_cleaned_has_no_path_separator(listed(request.keywords), illegal);
    lemma_chosen_extension_has_no_path_separator(
        request.extension,
        Seq::empty(),
        config.default_extension,
        illegal,
    );
    lemma_encoded_has_no_path_separator(created(request, config, now), config.segment_order);
}

/// The name of a renamed note holds no path separator, whatever the note
/// was called before, whatever was typed and whatever is configured.
pub proof fn lemma_renamed_is_a_name(
    current: Metadata,
    changes: ChangesView,
    config: ConfigView,
    now: DateTime,
)
    requires
        now.is_valid(),
    ensures
        renamed(current, changes, config, now).has_no_path_separator(),
        has_no_path_separator(
            encoded(renamed(current, changes, config, now), config.segment_order),
        ),
{
    let illegal = config.illegal_characters;
    let after = renamed(current, changes, config, now);
    lemma_identifier_shape(now);
    lemma_identifier_has_no_path_separator(identifier_of(now));
    if keeps_identifier(current, changes, config) {
        lemma_identifier_has_no_path_separator(current.identifier->0);
    }
    lemma_segment_text_has_no_path_separator(changes.signature, illegal);
    lemma_segment_text_has_no_path_separator(current.signature, illegal);
    lemma_segment_text_has_no_path_separator(changes.title, illegal);
    lemma_segment_text_has_no_path_separator(current.title, illegal);
    let base = match changes.keywords {
        Some(text) => fields(text),
        None => current.keywords,
    };
    let replacement = match changes.keywords {
        Some(text) => Some(fields(text)),
        None => None,
    };
    lemma_resolved_keywords(
        current.keywords,
        replacement,
        listed(changes.add_keywords),
        listed(changes.remove_keywords),
        illegal,
    );
    lemma_cleaned_has_no_path_separator(base + listed(changes.add_keywords), illegal);
    assert forall|i: int| 0 <= i < after.keywords.len() implies has_no_path_separator(
        #[trigger] after.keywords[i],
    ) by {
        let all = cleaned(base + listed(changes.add_keywords), illegal);
        assert(after.keywords.contains(after.keywords[i]));
        assert(all.contains(after.keywords[i]));
        let k = choose|k: int| 0 <= k < all.len() && all[k] == after.keywords[i];
        assert(has_no_path_separator(all[k]));
    }
    lemma_chosen_extension_has_no_path_separator(
        changes.extension,
        current.extension,
        config.default_extension,
        illegal,
    );
    lemma_encoded_has_no_path_separator(after, config.segment_order);
}

/// The name of a new note reads back as the metadata the note was given.
pub proof fn lemma_created_reads_back(request: NewNoteView, config: ConfigView, now: DateTime)
    requires
        now.is_valid(),
        names_every_segment(config.segment_order),
    ensures
        decoded(encoded(created(request, config, now), config.segment_order)) == Ok::<
            Metadata,
            ParseError,
        >(created(request, config, now)),
{
    lemma_created_well_formed(request, config, now);
    lemma_round_trip(created(request, config, now), config.segment_order);
}

/// The name of a renamed note reads back as the metadata the note was
/// given.
pub proof fn lemma_renamed_reads_back(
    current: Metadata,
    changes: ChangesView,
    config: ConfigView,
    now: DateTime,
)
    requires
        now.is_valid(),
        names_every_segment(config.segment_order),
    ensures
        decoded(encoded(renamed(current, changes, config, now), config.segment_order)) == Ok::<
            Metadata,
            ParseError,
        >(renamed(current, changes, config, now)),
{
    lemma_renamed_well_formed(current, changes, config, now);
    lemma_round_trip(renamed(current, changes, config, now), config.segment_order);
}

/// Renaming keeps the identifier of a note, to the letter, unless a fresh
/// one is asked for: the new name, read back, shows the identifier that the
/// old name showed.
pub proof fn lemma_rename_keeps_identifier(
    name: Seq<char>,
    changes: ChangesView,
    config: ConfigView,
    now: DateTime,
)
    requires
        decoded(name) is Ok,
        decoded(name)->Ok_0.identifier is Some,
        !changes.regenerate_identifier,
        !config.regenerate_identifier,
        now.is_valid(),
        names_every_segment(config.segment_order),
    ensures
        renamed(decoded(name)->Ok_0, changes, config, now).identifier == decoded(
            name,
        )->Ok_0.identifier,
        decoded(
            encoded(renamed(decoded(name)->Ok_0, changes, config, now), config.segment_order),
        ) matches Ok(read) && read.identifier == decoded(name)->Ok_0.identifier,
{
    let current = decoded(name)->Ok_0;
    crate::codec::lemma_decoded_identifier(name);
    lemma_renamed_well_formed(current, changes, config, now);
    lemma_round_trip(renamed(current, changes, config, now), config.segment_order);
}

/// Sanitises the text of a segment: see [`segment_text`].
fn sanitize_segment(raw: &Option<String>, illegal: &HashSet<char>) -> (text: Option<String>)
    ensures
        optional_text(text) == segment_text(optional_text(*raw), illegal@),
{
    match raw {
        Some(typed) => {
            let text = sanitize(typed.as_str(), illegal);
            if text.as_str().is_empty() {
                None
            } else {
                Some(text)
            }
        },
        None => None,
    }
}

/// Splits a list that was typed: see [`listed`].
fn split_typed(raw: &Option<String>) -> (list: Vec<String>)
    ensures
        texts(list@) == listed(optional_text(*raw)),
{
    match raw {
        Some(typed) => split_list(typed.as_str()),
        None => {
            let list: Vec<String> = Vec::new();
            assert(texts(list@) == Seq::<Seq<char>>::empty());
            list
        },
    }
}

/// Chooses the extension of a note: see [`chosen_extension`].
fn choose_extension(
    asked: &Option<String>,
    current: &str,
    configured: &str,
    illegal: &HashSet<char>,
) -> (extension: String)
    ensures
        extension@ == chosen_extension(optional_text(*asked), current@, configured@, illegal@),
{
    if let Some(typed) = asked {
        let first = sanitize(typed.as_str(), illegal);
        if !first.as_str().is_empty() {
            return first;
        }
    }
    let second = sanitize(current, illegal);
    if !second.as_str().is_empty() {
        return second;
    }
    sanitize(configured, illegal)
}

/// Builds the metadata of a note that is created at `now`: a fresh
/// identifier, and what the request names, sanitised.
pub fn create_metadata(request: &NewNote, config: &Config, now: &Timestamp) -> (metadata:
    NoteMetadata)
    ensures
        metadata@ == created(request@, config@, now@),
        metadata@.is_well_formed(),
        metadata@.has_no_path_separator(),
{
    let illegal = &config.illegal_characters;
    let typed = split_typed(&request.keywords);
    let metadata = NoteMetadata {
        identifier: Some(generate_identifier(now)),
        signature: sanitize_segment(&request.signature, illegal),
        title: sanitize_segment(&request.title, illegal),
        keywords: clean_keywords(&typed, illegal),
        extension: choose_extension(
            &request.extension,
            "",
            config.default_extension.as_str(),
            illegal,
        ),
    };
    proof {
        reveal_strlit("");
        assert(""@ == Seq::<char>::empty());
        use_type_invariant(now);
        lemma_created_well_formed(request@, config@, now@);
        lemma_created_is_a_name(request@, config@, now@);
    }
    metadata
}

/// Plans the creation of a note at `now`: the note is named after its
/// metadata and lies in the configured directory.
pub fn plan_create(request: &NewNote, config: &Config, now: &Timestamp) -> (plan: CreatePlan)
    ensures
        plan.name@ == encoded(created(request@, config@, now@), config@.segment_order),
        has_no_path_separator(plan.name@),
        plan.path == path_joined(config.directory, plan.name@),
        plan.template == config.template_path,
{
    proof {
        use_type_invariant(now);
        lemma_created_is_a_name(request@, config@, now@);
    }
    let metadata = create_metadata(request, config, now);
    let name = encode(&metadata, &config.segment_order);
    let path = join_path(&config.directory, name.as_str());
    let template = match &config.template_path {
        Some(template) => Some(clone_path(template)),
        None => None,
    };
    CreatePlan { name, path, template }
}

/// Tells whether `text` has the shape of an identifier.
pub fn is_identifier_text(text: &str) -> (yes: bool)
    ensures
        yes == is_identifier(text@),
{
    let chars = chars_of(text);
    assert(chars@.subrange(0, chars.len() as int) == chars@);
    crate::identifier::identifier_shaped(&chars, 0, chars.len())
}

/// Builds the metadata of a note that is renamed at `now`: see [`renamed`].
pub fn rename_metadata(
    current: &NoteMetadata,
    changes: &Changes,
    config: &Config,
    now: &Timestamp,
) -> (metadata: NoteMetadata)
    ensures
        metadata@ == renamed(current@, changes@, config@, now@),
        metadata@.is_well_formed(),
        metadata@.has_no_path_separator(),
{
    let illegal = &config.illegal_characters;
    let keep = !changes.regenerate_identifier && !config.regenerate_identifier
        && match &current.identifier {
        Some(id) => is_identifier_text(id.as_str()),
        None => false,
    };
    let identifier = if keep {
        match &current.identifier {
            Some(id) => Some(id.clone()),
            None => None,
        }
    } else {
        Some(generate_identifier(now))
    };
    let signature = match &changes.signature {
        Some(_) => sanitize_segment(&changes.signature, illegal),
        None => sanitize_segment(&current.signature, illegal),
    };
    let title = match &changes.title {
        Some(_) => sanitize_segment(&changes.title, illegal),
        None => sanitize_segment(&current.title, illegal),
    };
    let additions = split_typed(&changes.add_keywords);
    let removals = split_typed(&changes.remove_keywords);
    let keywords = match &changes.keywords {
        Some(typed) => {
            let replacement = split_list(typed.as_str());
            resolve_keywords(
                &current.keywords,
                Some(&replacement),
                &additions,
                &removals,
                illegal,
            )
        },
        None => resolve_keywords(&current.keywords, None, &additions, &removals, illegal),
    };
    let extension = choose_extension(
        &changes.extension,
        current.extension.as_str(),
        config.default_extension.as_str(),
        illegal,
    );
    let metadata = NoteMetadata { identifier, signature, title, keywords, extension };
    proof {
        use_type_invariant(now);
        lemma_renamed_well_formed(current@, changes@, config@, now@);
        lemma_renamed_is_a_name(current@, changes@, config@, now@);
    }
    metadata
}

/// Plans the renaming, at `now`, of the note called `name` that lies in
/// `directory`. Fails if `name` cannot be read, and then with the error of
/// [`decode`]; otherwise the note is named after its changed metadata and
/// stays in its directory.
pub fn plan_rename(
    name: &str,
    directory: &PathBuf,
    changes: &Changes,
    config: &Config,
    now: &Timestamp,
) -> (result: Result<RenamePlan, ParseError>)
    ensures
        match decoded(name@) {
            Ok(current) => result matches Ok(plan) && plan.name@ == encoded(
                renamed(current, changes@, config@, now@),
                config@.segment_order,
            ) && has_no_path_separator(plan.name@) && plan.path == path_joined(
                *directory,
                plan.name@,
            ),
            Err(error) => result == Err::<RenamePlan, ParseError>(error),
        },
{
    match decode(name) {
        Ok(current) => {
            let metadata = rename_metadata(&current, changes, config, now);
            proof {
                lemma_encoded_has_no_path_separator(metadata@, config@.segment_order);
            }
            let new_name = encode(&metadata, &config.segment_order);
            let path = join_path(directory, new_name.as_str());
            Ok(RenamePlan { name: new_name, path })
        },
        Err(error) => Err(error),
    }
}

} // verus!
