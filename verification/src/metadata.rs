//! What a file name says about a note.

use crate::identifier::is_identifier;
use crate::charset::has_no_path_separator;
use crate::sanitize::is_clean;
use vstd::prelude::*;

verus! {

/// The metadata of a note: what its file name is made of.
#[derive(Debug, PartialEq, Eq)]
pub struct NoteMetadata {
    /// When the note was created.
    pub identifier: Option<String>,
    /// A token by which notes are ordered or classified.
    pub signature: Option<String>,
    /// The title.
    pub title: Option<String>,
    /// The keywords, none of them twice.
    pub keywords: Vec<String>,
    /// The file extension; empty when the name has none.
    pub extension: String,
}

/// What a [`NoteMetadata`] holds, as mathematical values.
pub ghost struct Metadata {
    pub identifier: Option<Seq<char>>,
    pub signature: Option<Seq<char>>,
    pub title: Option<Seq<char>>,
    pub keywords: Seq<Seq<char>>,
    pub extension: Seq<char>,
}

/// The texts that a list of strings holds.
pub open spec fn texts(list: Seq<String>) -> Seq<Seq<char>> {
    list.map_values(|text: String| text@)
}

/// The text that an optional string holds.
pub open spec fn optional_text(text: Option<String>) -> Option<Seq<char>> {
    match text {
        Some(t) => Some(t@),
        None => None,
    }
}

impl View for NoteMetadata {
    type V = Metadata;

    open spec fn view(&self) -> Metadata {
        Metadata {
            identifier: optional_text(self.identifier),
            signature: optional_text(self.signature),
            title: optional_text(self.title),
            keywords: texts(self.keywords@),
            extension: self.extension@,
        }
    }
}

impl Metadata {
    /// Metadata that says nothing.
    pub open spec fn blank() -> Metadata {
        Metadata {
            identifier: None,
            signature: None,
            title: None,
            keywords: Seq::empty(),
            extension: Seq::empty(),
        }
    }

    /// Whether no field holds a path separator.
    pub open spec fn has_no_path_separator(self) -> bool {
        &&& self.identifier matches Some(id) ==> has_no_path_separator(id)
        &&& self.signature matches Some(text) ==> has_no_path_separator(text)
        &&& self.title matches Some(text) ==> has_no_path_separator(text)
        &&& forall|i: int|
            0 <= i < self.keywords.len() ==> has_no_path_separator(#[trigger] self.keywords[i])
        &&& has_no_path_separator(self.extension)
    }

    /// Whether every field can be written into a file name and read back:
    /// the identifier has the shape of one, every text that is present is
    /// clean, and no keyword occurs twice.
    pub open spec fn is_well_formed(self) -> bool {
        &&& self.identifier matches Some(id) ==> is_identifier(id)
        &&& self.signature matches Some(text) ==> is_clean(text)
        &&& self.title matches Some(text) ==> is_clean(text)
        &&& forall|i: int| 0 <= i < self.keywords.len() ==> is_clean(#[trigger] self.keywords[i])
        &&& self.keywords.no_duplicates()
        &&& self.extension.len() == 0 || is_clean(self.extension)
    }
}

impl NoteMetadata {
    /// Metadata that says nothing.
    pub fn blank() -> (metadata: NoteMetadata)
        ensures
            metadata@ == Metadata::blank(),
    {
        let metadata = NoteMetadata {
            identifier: None,
            signature: None,
            title: None,
            keywords: Vec::new(),
            extension: String::new(),
        };
        assert(metadata@.keywords =~= Seq::empty());
        metadata
    }
}

/// Copies an optional string.
pub fn clone_optional(text: &Option<String>) -> (copy: Option<String>)
    ensures
        optional_text(copy) == optional_text(*text),
{
    match text {
        Some(t) => Some(t.clone()),
        None => None,
    }
}

/// Copies a list of strings.
pub fn clone_list(list: &Vec<String>) -> (copy: Vec<String>)
    ensures
        texts(copy@) == texts(list@),
{
    let mut copy: Vec<String> = Vec::new();
    let mut i: usize = 0;
    while i < list.len()
        invariant
            i <= list.len(),
            texts(copy@) == texts(list@).take(i as int),
        decreases list.len() - i,
    {
        let ghost before = copy@;
        copy.push(list[i].clone());
        assert(texts(copy@) == texts(before).push(list@[i as int]@));
        assert(texts(list@).take(i + 1) == texts(list@).take(i as int).push(list@[i as int]@));
        i += 1;
    }
    assert(texts(list@).take(list.len() as int) == texts(list@));
    copy
}

impl Clone for NoteMetadata {
    fn clone(&self) -> (copy: NoteMetadata)
        ensures
            copy@ == self@,
    {
        NoteMetadata {
            identifier: clone_optional(&self.identifier),
            signature: clone_optional(&self.signature),
            title: clone_optional(&self.title),
            keywords: clone_list(&self.keywords),
            extension: self.extension.clone(),
        }
    }
}

/// Tells whether `list` holds `text`.
pub fn contains_text(list: &Vec<String>, text: &String) -> (found: bool)
    ensures
        found == texts(list@).contains(text@),
{
    let mut i: usize = 0;
    while i < list.len()
        invariant
            i <= list.len(),
            forall|k: int| 0 <= k < i ==> texts(list@)[k] != text@,
        decreases list.len() - i,
    {
        if list[i] == *text {
            assert(texts(list@)[i as int] == text@);
            return true;
        }
        i += 1;
    }
    false
}

} // verus!
