//! Writing metadata into a file name and reading it back.
//!
//! A file name is a run of segments. Each segment but a leading identifier
//! starts with the delimiter that tells its kind: `@@` an identifier, `==` a
//! signature, `--` a title, `__` the first keyword and `_` each further one,
//! `.` the extension. A segment that is absent leaves nothing behind, not
//! even its delimiter.

use crate::charset::has_no_path_separator;
use crate::identifier::{identifier_shaped, is_identifier};
use crate::metadata::{contains_text, texts, Metadata, NoteMetadata};
use crate::segment::FilenameSegment;
use crate::text::{chars_of, text_between};
use vstd::prelude::*;
use vstd::string::StringExecFns;

verus! {

/// What can introduce a segment, or a further keyword.
#[derive(PartialEq, Eq, Structural, Copy, Clone, Debug)]
pub enum Delimiter {
    /// `@@`
    Identifier,
    /// `==`
    Signature,
    /// `--`
    Title,
    /// `__`
    Keywords,
    /// `_`
    NextKeyword,
    /// `.`
    Extension,
}

impl Delimiter {
    /// The number of characters the delimiter takes.
    pub open spec fn width(self) -> nat {
        match self {
            Delimiter::NextKeyword | Delimiter::Extension => 1,
            _ => 2,
        }
    }

    /// The segment that the delimiter belongs to.
    pub open spec fn segment(self) -> FilenameSegment {
        match self {
            Delimiter::Identifier => FilenameSegment::Identifier,
            Delimiter::Signature => FilenameSegment::Signature,
            Delimiter::Title => FilenameSegment::Title,
            Delimiter::Keywords | Delimiter::NextKeyword => FilenameSegment::Keywords,
            Delimiter::Extension => FilenameSegment::Extension,
        }
    }
}

/// Why a file name could not be read.
#[derive(PartialEq, Eq, Structural, Copy, Clone, Debug)]
pub enum ParseError {
    /// A delimiter of the given segment is followed by no text.
    Unterminated(FilenameSegment),
}

/// The keywords, each behind a keyword separator.
pub open spec fn keyword_run(keywords: Seq<Seq<char>>) -> Seq<char>
    decreases keywords.len(),
{
    if keywords.len() == 0 {
        Seq::empty()
    } else {
        seq!['_'] + keywords.first() + keyword_run(keywords.drop_first())
    }
}

/// What one segment contributes to the file name. `leading` says that
/// nothing has been written before it.
pub open spec fn piece(metadata: Metadata, segment: FilenameSegment, leading: bool) -> Seq<char> {
    match segment {
        FilenameSegment::Identifier => match metadata.identifier {
            Some(identifier) => if leading {
                identifier
            } else {
                seq!['@', '@'] + identifier
            },
            None => Seq::empty(),
        },
        FilenameSegment::Signature => match metadata.signature {
            Some(text) => seq!['=', '='] + text,
            None => Seq::empty(),
        },
        FilenameSegment::Title => match metadata.title {
            Some(text) => seq!['-', '-'] + text,
            None => Seq::empty(),
        },
        FilenameSegment::Keywords => if metadata.keywords.len() == 0 {
            Seq::empty()
        } else {
            seq!['_'] + keyword_run(metadata.keywords)
        },
        FilenameSegment::Extension => if metadata.extension.len() == 0 {
            Seq::empty()
        } else {
            seq!['.'] + metadata.extension
        },
    }
}

/// The pieces of the segments in `order`, one after the other.
pub open spec fn pieces(metadata: Metadata, order: Seq<FilenameSegment>, leading: bool) -> Seq<
    char,
>
    decreases order.len(),
{
    if order.len() == 0 {
        Seq::empty()
    } else {
        let head = piece(metadata, order.first(), leading);
        head + pieces(metadata, order.drop_first(), leading && head.len() == 0)
    }
}

/// The file name that `metadata` is written as when its segments come in
/// `order`.
pub open spec fn encoded(metadata: Metadata, order: Seq<FilenameSegment>) -> Seq<char> {
    pieces(metadata, order, true)
}

/// The delimiter that `s` starts with, if it starts with one.
pub open spec fn delimiter_at(s: Seq<char>) -> Option<Delimiter> {
    if s.len() == 0 {
        None
    } else if s[0] == '.' {
        Some(Delimiter::Extension)
    } else if s[0] == '_' {
        if s.len() > 1 && s[1] == '_' {
            Some(Delimiter::Keywords)
        } else {
            Some(Delimiter::NextKeyword)
        }
    } else if s.len() > 1 && s[1] == s[0] {
        if s[0] == '-' {
            Some(Delimiter::Title)
        } else if s[0] == '=' {
            Some(Delimiter::Signature)
        } else if s[0] == '@' {
            Some(Delimiter::Identifier)
        } else {
            None
        }
    } else {
        None
    }
}

/// The number of characters at the start of `s` before the first delimiter,
/// or before the end where there is none.
pub open spec fn chunk_len(s: Seq<char>) -> nat
    decreases s.len(),
{
    if s.len() == 0 || delimiter_at(s) is Some {
        0
    } else {
        1 + chunk_len(s.drop_first())
    }
}

/// `chunk_len` never exceeds the length of the text.
pub proof fn lemma_chunk_len_bound(s: Seq<char>)
    ensures
        chunk_len(s) <= s.len(),
        chunk_len(s) < s.len() ==> delimiter_at(s.skip(chunk_len(s) as int)) is Some,
    decreases s.len(),
{
    if s.len() == 0 || delimiter_at(s) is Some {
        assert(s.skip(0) == s);
    } else {
        let tail = s.drop_first();
        lemma_chunk_len_bound(tail);
        assert(tail.skip(chunk_len(tail) as int) == s.skip(chunk_len(s) as int));
    }
}

/// `metadata` after the text `chunk` was found behind `delimiter`. An
/// identifier counts only if it has the shape of one; a keyword that is
/// there already is not added again; a later segment of a kind replaces an
/// earlier one.
pub open spec fn noted(metadata: Metadata, delimiter: Delimiter, chunk: Seq<char>) -> Metadata {
    match delimiter {
        Delimiter::Identifier => if is_identifier(chunk) {
            Metadata { identifier: Some(chunk), ..metadata }
        } else {
            metadata
        },
        Delimiter::Signature => Metadata { signature: Some(chunk), ..metadata },
        Delimiter::Title => Metadata { title: Some(chunk), ..metadata },
        Delimiter::Keywords => Metadata { keywords: seq![chunk], ..metadata },
        Delimiter::NextKeyword => if metadata.keywords.contains(chunk) {
            metadata
        } else {
            Metadata { keywords: metadata.keywords.push(chunk), ..metadata }
        },
        Delimiter::Extension => Metadata { extension: chunk, ..metadata },
    }
}

/// Reads the delimited segments of `s` into `metadata`, from left to right.
/// A delimiter that no text follows is an error.
pub open spec fn scanned(s: Seq<char>, metadata: Metadata) -> Result<Metadata, ParseError>
    recommends
        s.len() == 0 || delimiter_at(s) is Some,
    decreases s.len(),
    via scanned_terminates
{
    match delimiter_at(s) {
        None => Ok(metadata),
        Some(delimiter) => {
            let rest = s.skip(delimiter.width() as int);
            let n = chunk_len(rest);
            if n == 0 {
                Err(ParseError::Unterminated(delimiter.segment()))
            } else {
                scanned(rest.skip(n as int), noted(metadata, delimiter, rest.take(n as int)))
            }
        },
    }
}

#[via_fn]
proof fn scanned_terminates(s: Seq<char>, metadata: Metadata) {
    if let Some(delimiter) = delimiter_at(s) {
        lemma_chunk_len_bound(s.skip(delimiter.width() as int));
    }
}

/// What a file name says. Text before the first delimiter is the
/// identifier if it has the shape of one, and is passed over otherwise.
pub open spec fn decoded(name: Seq<char>) -> Result<Metadata, ParseError> {
    let n = chunk_len(name);
    scanned(name.skip(n as int), noted(Metadata::blank(), Delimiter::Identifier, name.take(n as int)))
}

proof fn lemma_scanned_identifier(s: Seq<char>, metadata: Metadata)
    requires
        metadata.identifier matches Some(id) ==> is_identifier(id),
    ensures
        scanned(s, metadata) matches Ok(read) ==> (read.identifier matches Some(id)
            ==> is_identifier(id)),
    decreases s.len(),
{
    if let Some(delimiter) = delimiter_at(s) {
        let rest = s.skip(delimiter.width() as int);
        let n = chunk_len(rest);
        lemma_chunk_len_bound(rest);
        if n > 0 {
            lemma_scanned_identifier(
                rest.skip(n as int),
                noted(metadata, delimiter, rest.take(n as int)),
            );
        }
    }
}

/// An identifier that is read from a name has the shape of one.
pub proof fn lemma_decoded_identifier(name: Seq<char>)
    ensures
        decoded(name) matches Ok(read) ==> (read.identifier matches Some(id) ==> is_identifier(
            id,
        )),
{
    let n = chunk_len(name);
    lemma_scanned_identifier(
        name.skip(n as int),
        noted(Metadata::blank(), Delimiter::Identifier, name.take(n as int)),
    );
}

proof fn lemma_keyword_run_has_no_path_separator(keywords: Seq<Seq<char>>)
    requires
        forall|i: int| 0 <= i < keywords.len() ==> has_no_path_separator(#[trigger] keywords[i]),
    ensures
        has_no_path_separator(keyword_run(keywords)),
    decreases keywords.len(),
{
    if keywords.len() > 0 {
        let later = keywords.drop_first();
        assert forall|i: int| 0 <= i < later.len() implies has_no_path_separator(
            #[trigger] later[i],
        ) by {
            assert(later[i] == keywords[i + 1]);
        }
        lemma_keyword_run_has_no_path_separator(later);
        assert(has_no_path_separator(keywords[0]));
    }
}

proof fn lemma_pieces_have_no_path_separator(
    metadata: Metadata,
    order: Seq<FilenameSegment>,
    leading: bool,
)
    requires
        metadata.has_no_path_separator(),
    ensures
        has_no_path_separator(pieces(metadata, order, leading)),
    decreases order.len(),
{
    if order.len() > 0 {
        let head = piece(metadata, order.first(), leading);
        lemma_keyword_run_has_no_path_separator(metadata.keywords);
        assert(has_no_path_separator(head));
        lemma_pieces_have_no_path_separator(
            metadata,
            order.drop_first(),
            leading && head.len() == 0,
        );
    }
}

/// A name holds no path separator if the metadata it is written from holds
/// none.
pub proof fn lemma_encoded_has_no_path_separator(metadata: Metadata, order: Seq<FilenameSegment>)
    requires
        metadata.has_no_path_separator(),
    ensures
        has_no_path_separator(encoded(metadata, order)),
{
    lemma_pieces_have_no_path_separator(metadata, order, true);
}

/// Finds the delimiter at `chars[at..]`.
fn delimiter_from(chars: &Vec<char>, at: usize) -> (found: Option<Delimiter>)
    requires
        at <= chars.len(),
    ensures
        found == delimiter_at(chars@.skip(at as int)),
{
    let ghost s = chars@.skip(at as int);
    if at >= chars.len() {
        return None;
    }
    let c = chars[at];
    assert(c == s[0]);
    let doubled = at + 1 < chars.len() && chars[at + 1] == c;
    proof {
        if at + 1 < chars.len() {
            assert(chars@[at + 1] == s[1]);
        }
    }
    if c == '.' {
        Some(Delimiter::Extension)
    } else if c == '_' {
        if doubled {
            Some(Delimiter::Keywords)
        } else {
            Some(Delimiter::NextKeyword)
        }
    } else if doubled {
        if c == '-' {
            Some(Delimiter::Title)
        } else if c == '=' {
            Some(Delimiter::Signature)
        } else if c == '@' {
            Some(Delimiter::Identifier)
        } else {
            None
        }
    } else {
        None
    }
}

/// Finds where the chunk that starts at `chars[from]` ends.
fn chunk_end(chars: &Vec<char>, from: usize) -> (to: usize)
    requires
        from <= chars.len(),
    ensures
        from <= to <= chars.len(),
        to - from == chunk_len(chars@.skip(from as int)),
{
    let mut to = from;
    while to < chars.len()
        invariant
            from <= to <= chars.len(),
            chunk_len(chars@.skip(from as int)) == (to - from) + chunk_len(chars@.skip(to as int)),
        decreases chars.len() - to,
    {
        if delimiter_from(chars, to).is_some() {
            return to;
        }
        assert(chars@.skip(to as int).drop_first() == chars@.skip(to + 1));
        to += 1;
    }
    to
}

impl Delimiter {
    /// Computes [`Delimiter::width`].
    fn size(self) -> (n: usize)
        ensures
            n == self.width(),
    {
        match self {
            Delimiter::NextKeyword | Delimiter::Extension => 1,
            _ => 2,
        }
    }

    /// Computes [`Delimiter::segment`].
    fn kind(self) -> (segment: FilenameSegment)
        ensures
            segment == self.segment(),
    {
        match self {
            Delimiter::Identifier => FilenameSegment::Identifier,
            Delimiter::Signature => FilenameSegment::Signature,
            Delimiter::Title => FilenameSegment::Title,
            Delimiter::Keywords | Delimiter::NextKeyword => FilenameSegment::Keywords,
            Delimiter::Extension => FilenameSegment::Extension,
        }
    }
}

/// Notes in `metadata` that `chars[from..to]` was found behind `delimiter`.
fn note(
    metadata: NoteMetadata,
    delimiter: Delimiter,
    chars: &Vec<char>,
    from: usize,
    to: usize,
) -> (updated: NoteMetadata)
    requires
        from <= to <= chars.len(),
    ensures
        updated@ == noted(metadata@, delimiter, chars@.subrange(from as int, to as int)),
{
    let mut updated = metadata;
    let chunk = text_between(chars, from, to);
    match delimiter {
        Delimiter::Identifier => {
            if identifier_shaped(chars, from, to) {
                updated.identifier = Some(chunk);
            }
        },
        Delimiter::Signature => {
            updated.signature = Some(chunk);
        },
        Delimiter::Title => {
            updated.title = Some(chunk);
        },
        Delimiter::Keywords => {
            let mut keywords: Vec<String> = Vec::new();
            keywords.push(chunk);
            updated.keywords = keywords;
            assert(texts(updated.keywords@) =~= seq![chunk@]);
        },
        Delimiter::NextKeyword => {
            if !contains_text(&updated.keywords, &chunk) {
                let ghost before = updated.keywords@;
                updated.keywords.push(chunk);
                assert(texts(updated.keywords@) =~= texts(before).push(chunk@));
            }
        },
        Delimiter::Extension => {
            updated.extension = chunk;
        },
    }
    updated
}

/// Reads the metadata that a file name holds. Fails only where a delimiter
/// is followed by no text; a name that lacks segments decodes to metadata
/// that lacks them.
pub fn decode(name: &str) -> (result: Result<NoteMetadata, ParseError>)
    ensures
        match result {
            Ok(metadata) => decoded(name@) == Ok::<Metadata, ParseError>(metadata@),
            Err(error) => decoded(name@) == Err::<Metadata, ParseError>(error),
        },
{
    let chars = chars_of(name);
    let lead = chunk_end(&chars, 0);
    let mut metadata = note(NoteMetadata::blank(), Delimiter::Identifier, &chars, 0, lead);
    let mut at = lead;
    proof {
        assert(chars@.skip(0) == chars@);
        assert(chars@.subrange(0, lead as int) == chars@.take(lead as int));
        lemma_chunk_len_bound(chars@);
    }
    while at < chars.len()
        invariant
            at <= chars.len(),
            chars@ == name@,
            decoded(name@) == scanned(chars@.skip(at as int), metadata@),
            at < chars.len() ==> delimiter_at(chars@.skip(at as int)) is Some,
        decreases chars.len() - at,
    {
        let found = delimiter_from(&chars, at);
        let delimiter = match found {
            Some(delimiter) => delimiter,
            None => { return Ok(metadata); },
        };
        let from = at + delimiter.size();
        proof {
            let s = chars@.skip(at as int);
            if delimiter.width() == 2 {
                assert(s.len() > 1);
            }
            assert(s.skip(delimiter.width() as int) == chars@.skip(from as int));
        }
        let to = chunk_end(&chars, from);
        if to == from {
            return Err(ParseError::Unterminated(delimiter.kind()));
        }
        proof {
            let rest = chars@.skip(from as int);
            assert(rest.take(to - from) == chars@.subrange(from as int, to as int));
            assert(rest.skip(to - from) == chars@.skip(to as int));
            lemma_chunk_len_bound(rest);
        }
        metadata = note(metadata, delimiter, &chars, from, to);
        at = to;
    }
    proof {
        assert(chars@.skip(at as int).len() == 0);
    }
    Ok(metadata)
}

/// `keyword_run` of a list with one more keyword at its end.
proof fn lemma_keyword_run_push(keywords: Seq<Seq<char>>, keyword: Seq<char>)
    ensures
        keyword_run(keywords.push(keyword)) == keyword_run(keywords) + seq!['_'] + keyword,
    decreases keywords.len(),
{
    let longer = keywords.push(keyword);
    if keywords.len() == 0 {
        assert(longer.drop_first() == Seq::<Seq<char>>::empty());
        assert(keyword_run(longer.drop_first()) == Seq::<char>::empty());
        assert(keyword_run(longer) =~= Seq::<char>::empty() + seq!['_'] + keyword);
    } else {
        lemma_keyword_run_push(keywords.drop_first(), keyword);
        assert(longer.drop_first() == keywords.drop_first().push(keyword));
        assert(longer.first() == keywords.first());
        assert(keyword_run(longer) =~= keyword_run(keywords) + seq!['_'] + keyword);
    }
}

/// Appends to `name` what `segment` contributes.
fn write_piece(name: &mut String, metadata: &NoteMetadata, segment: FilenameSegment)
    ensures
        final(name)@ == old(name)@ + piece(metadata@, segment, old(name)@.len() == 0),
{
    let ghost start = name@;
    match segment {
        FilenameSegment::Identifier => {
            if let Some(identifier) = &metadata.identifier {
                if !name.as_str().is_empty() {
                    name.push('@');
                    name.push('@');
                }
                name.append(identifier.as_str());
                assert(name@ =~= start + piece(metadata@, segment, start.len() == 0));
            } else {
                assert(name@ =~= start + piece(metadata@, segment, start.len() == 0));
            }
        },
        FilenameSegment::Signature => {
            if let Some(text) = &metadata.signature {
                name.push('=');
                name.push('=');
                name.append(text.as_str());
            }
            assert(name@ =~= start + piece(metadata@, segment, start.len() == 0));
        },
        FilenameSegment::Title => {
            if let Some(text) = &metadata.title {
                name.push('-');
                name.push('-');
                name.append(text.as_str());
            }
            assert(name@ =~= start + piece(metadata@, segment, start.len() == 0));
        },
        FilenameSegment::Keywords => {
            if metadata.keywords.len() > 0 {
                name.push('_');
                let mut i: usize = 0;
                while i < metadata.keywords.len()
                    invariant
                        i <= metadata.keywords.len(),
                        name@ == start + seq!['_'] + keyword_run(
                            texts(metadata.keywords@).take(i as int),
                        ),
                    decreases metadata.keywords.len() - i,
                {
                    proof {
                        let all = texts(metadata.keywords@);
                        lemma_keyword_run_push(all.take(i as int), all[i as int]);
                        assert(all.take(i + 1) == all.take(i as int).push(all[i as int]));
                    }
                    name.push('_');
                    name.append(metadata.keywords[i].as_str());
                    i += 1;
                }
                proof {
                    let all = texts(metadata.keywords@);
                    assert(all.take(all.len() as int) == all);
                }
            }
            assert(name@ =~= start + piece(metadata@, segment, start.len() == 0));
        },
        FilenameSegment::Extension => {
            if !metadata.extension.as_str().is_empty() {
                name.push('.');
                name.append(metadata.extension.as_str());
            }
            assert(name@ =~= start + piece(metadata@, segment, start.len() == 0));
        },
    }
}

/// Writes `metadata` as a file name, its segments in `order`. A segment
/// that is absent is left out with its delimiter; an identifier that comes
/// first stands without one.
pub fn encode(metadata: &NoteMetadata, order: &[FilenameSegment; 5]) -> (name: String)
    ensures
        name@ == encoded(metadata@, order@),
{
    let mut name = String::new();
    let mut i: usize = 0;
    proof {
        assert(order@.skip(0) == order@);
        assert(name@ + pieces(metadata@, order@, true) == pieces(metadata@, order@, true));
    }
    while i < 5
        invariant
            i <= 5,
            order@.len() == 5,
            encoded(metadata@, order@) == name@ + pieces(
                metadata@,
                order@.skip(i as int),
                name@.len() == 0,
            ),
        decreases 5 - i,
    {
        proof {
            let rest = order@.skip(i as int);
            assert(rest.first() == order@[i as int]);
            assert(rest.drop_first() == order@.skip(i + 1));
        }
        write_piece(&mut name, metadata, order[i]);
        i += 1;
    }
    name
}

} // verus!
