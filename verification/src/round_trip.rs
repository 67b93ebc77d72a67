//! Proof that a file name, once written, reads back as the metadata it was
//! written from.

use crate::codec::{
    chunk_len, decoded, delimiter_at, encoded, keyword_run, noted, piece, pieces, scanned,
    Delimiter, ParseError,
};
use crate::identifier::is_identifier;
use crate::metadata::Metadata;
use crate::sanitize::is_clean;
use crate::segment::{names_every_segment, FilenameSegment};
use vstd::prelude::*;

verus! {

/// Whether no delimiter starts inside `s`, whatever follows it.
spec fn is_inert(s: Seq<char>) -> bool {
    forall|i: int|
        0 <= i < s.len() ==> {
            &&& #[trigger] s[i] != '.'
            &&& s[i] != '_'
            &&& s[i] != '='
            &&& s[i] != '@'
            &&& (s[i] == '-' ==> i + 1 < s.len() && s[i + 1] != '-')
        }
}

/// Whether a chunk can end where `s` starts.
spec fn is_boundary(s: Seq<char>) -> bool {
    s.len() == 0 || delimiter_at(s) is Some
}

/// The fields of `metadata` that belong to the segments in `seen`.
spec fn kept(metadata: Metadata, seen: Set<FilenameSegment>) -> Metadata {
    Metadata {
        identifier: if seen.contains(FilenameSegment::Identifier) {
            metadata.identifier
        } else {
            None
        },
        signature: if seen.contains(FilenameSegment::Signature) {
            metadata.signature
        } else {
            None
        },
        title: if seen.contains(FilenameSegment::Title) {
            metadata.title
        } else {
            None
        },
        keywords: if seen.contains(FilenameSegment::Keywords) {
            metadata.keywords
        } else {
            Seq::empty()
        },
        extension: if seen.contains(FilenameSegment::Extension) {
            metadata.extension
        } else {
            Seq::empty()
        },
    }
}

/// How reading goes on at `s`: as at the start of a name if `leading`, else
/// as behind a segment.
spec fn resumed(s: Seq<char>, metadata: Metadata, leading: bool) -> Result<Metadata, ParseError> {
    if leading {
        let n = chunk_len(s);
        scanned(s.skip(n as int), noted(metadata, Delimiter::Identifier, s.take(n as int)))
    } else {
        scanned(s, metadata)
    }
}

/// The characters that `delimiter` is written with.
spec fn mark(delimiter: Delimiter) -> Seq<char> {
    match delimiter {
        Delimiter::Identifier => seq!['@', '@'],
        Delimiter::Signature => seq!['=', '='],
        Delimiter::Title => seq!['-', '-'],
        Delimiter::Keywords => seq!['_', '_'],
        Delimiter::NextKeyword => seq!['_'],
        Delimiter::Extension => seq!['.'],
    }
}

proof fn lemma_clean_is_inert(s: Seq<char>)
    requires
        is_clean(s),
    ensures
        is_inert(s),
        s.len() > 0,
{
    assert forall|i: int| 0 <= i < s.len() implies {
        &&& #[trigger] s[i] != '.'
        &&& s[i] != '_'
        &&& s[i] != '='
        &&& s[i] != '@'
        &&& (s[i] == '-' ==> i + 1 < s.len() && s[i + 1] != '-')
    } by {
        if s[i] == '-' {
            if i + 1 == s.len() {
                assert(s.last() == s[i]);
            } else {
                assert(!(s[i] == '-' && s[i + 1] == '-'));
            }
        }
    }
}

proof fn lemma_identifier_is_inert(s: Seq<char>)
    requires
        is_identifier(s),
    ensures
        is_inert(s),
        s.len() > 0,
{
    assert forall|i: int| 0 <= i < s.len() implies {
        &&& #[trigger] s[i] != '.'
        &&& s[i] != '_'
        &&& s[i] != '='
        &&& s[i] != '@'
        &&& (s[i] == '-' ==> i + 1 < s.len() && s[i + 1] != '-')
    } by {
        if i != 8 {
            assert(crate::identifier::is_digit(s[i]));
        }
    }
}

/// A chunk of inert text ends where the text ends, if a boundary follows.
proof fn lemma_chunk_of_inert(content: Seq<char>, tail: Seq<char>)
    requires
        is_inert(content),
        is_boundary(tail),
    ensures
        chunk_len(content + tail) == content.len(),
        (content + tail).take(content.len() as int) == content,
        (content + tail).skip(content.len() as int) == tail,
    decreases content.len(),
{
    let s = content + tail;
    if content.len() == 0 {
        assert(s == tail);
    } else {
        assert(s[0] == content[0]);
        if s.len() > 1 {
            if content.len() > 1 {
                assert(s[1] == content[1]);
            } else {
                assert(s[1] == tail[0]);
            }
        }
        assert(delimiter_at(s) is None);
        let shorter = content.drop_first();
        assert forall|i: int| 0 <= i < shorter.len() implies {
            &&& #[trigger] shorter[i] != '.'
            &&& shorter[i] != '_'
            &&& shorter[i] != '='
            &&& shorter[i] != '@'
            &&& (shorter[i] == '-' ==> i + 1 < shorter.len() && shorter[i + 1] != '-')
        } by {
            assert(shorter[i] == content[i + 1]);
        }
        lemma_chunk_of_inert(shorter, tail);
        assert(s.drop_first() == shorter + tail);
    }
}

/// Reading a delimiter and the inert text behind it notes that text and
/// goes on behind it.
proof fn lemma_scan_segment(
    delimiter: Delimiter,
    content: Seq<char>,
    tail: Seq<char>,
    metadata: Metadata,
)
    requires
        is_inert(content),
        content.len() > 0,
        is_boundary(tail),
    ensures
        scanned(mark(delimiter) + content + tail, metadata) == scanned(
            tail,
            noted(metadata, delimiter, content),
        ),
{
    let s = mark(delimiter) + content + tail;
    let w = delimiter.width() as int;
    assert(mark(delimiter).len() == w);
    assert(s[0] == mark(delimiter)[0]);
    if w == 2 {
        assert(s[1] == mark(delimiter)[1]);
    } else {
        assert(s[1] == content[0]);
    }
    assert(delimiter_at(s) == Some(delimiter));
    let rest = s.skip(w);
    assert(rest == content + tail);
    lemma_chunk_of_inert(content, tail);
}

/// Whether `metadata` has nothing to write for `segment`.
spec fn is_absent(metadata: Metadata, segment: FilenameSegment) -> bool {
    match segment {
        FilenameSegment::Identifier => metadata.identifier is None,
        FilenameSegment::Signature => metadata.signature is None,
        FilenameSegment::Title => metadata.title is None,
        FilenameSegment::Keywords => metadata.keywords.len() == 0,
        FilenameSegment::Extension => metadata.extension.len() == 0,
    }
}

proof fn lemma_keyword_run_start(keywords: Seq<Seq<char>>, tail: Seq<char>)
    requires
        is_boundary(tail),
    ensures
        is_boundary(keyword_run(keywords) + tail),
{
    if keywords.len() == 0 {
        assert(keyword_run(keywords) + tail == tail);
    } else {
        assert((keyword_run(keywords) + tail)[0] == '_');
    }
}

/// A piece that is not the first of a name is empty exactly when its
/// segment is absent, and starts with a delimiter otherwise.
proof fn lemma_piece_start(metadata: Metadata, segment: FilenameSegment, leading: bool)
    requires
        metadata.is_well_formed(),
    ensures
        piece(metadata, segment, leading).len() == 0 <==> is_absent(metadata, segment),
        !leading ==> is_boundary(piece(metadata, segment, leading)),
{
    let p = piece(metadata, segment, leading);
    match segment {
        FilenameSegment::Identifier => {
            if let Some(id) = metadata.identifier {
                if !leading {
                    assert(p[0] == '@' && p[1] == '@');
                }
            }
        },
        FilenameSegment::Signature => {
            if metadata.signature is Some {
                assert(p[0] == '=' && p[1] == '=');
            }
        },
        FilenameSegment::Title => {
            if metadata.title is Some {
                assert(p[0] == '-' && p[1] == '-');
            }
        },
        FilenameSegment::Keywords => {
            if metadata.keywords.len() > 0 {
                assert(p[0] == '_');
            }
        },
        FilenameSegment::Extension => {
            if metadata.extension.len() > 0 {
                assert(p[0] == '.');
            }
        },
    }
}

/// What follows a segment in a name, if anything, starts with a delimiter.
proof fn lemma_pieces_start(metadata: Metadata, order: Seq<FilenameSegment>)
    requires
        metadata.is_well_formed(),
    ensures
        is_boundary(pieces(metadata, order, false)),
    decreases order.len(),
{
    if order.len() > 0 {
        let head = piece(metadata, order.first(), false);
        let tail = pieces(metadata, order.drop_first(), false);
        lemma_piece_start(metadata, order.first(), false);
        lemma_pieces_start(metadata, order.drop_first());
        if head.len() == 0 {
            assert(head + tail == tail);
        } else {
            assert((head + tail)[0] == head[0]);
            if head.len() > 1 {
                assert((head + tail)[1] == head[1]);
            } else if tail.len() > 0 {
                assert((head + tail)[1] == tail[0]);
            }
            assert(delimiter_at(head) is Some);
            lemma_delimiter_extends(head, tail);
        }
    }
}

/// A delimiter at the start of a piece of a name stays one when more
/// text follows the piece.
proof fn lemma_delimiter_extends(head: Seq<char>, tail: Seq<char>)
    requires
        delimiter_at(head) is Some,
    ensures
        delimiter_at(head + tail) is Some,
{
    let s = head + tail;
    assert(s[0] == head[0]);
    if head.len() > 1 {
        assert(s[1] == head[1]);
    }
}

/// Reading the further keywords of a name adds them in order.
proof fn lemma_scan_keywords(
    done: Seq<Seq<char>>,
    rest: Seq<Seq<char>>,
    tail: Seq<char>,
    metadata: Metadata,
)
    requires
        (done + rest).no_duplicates(),
        forall|i: int| 0 <= i < rest.len() ==> is_clean(#[trigger] rest[i]),
        is_boundary(tail),
    ensures
        scanned(keyword_run(rest) + tail, Metadata { keywords: done, ..metadata }) == scanned(
            tail,
            Metadata { keywords: done + rest, ..metadata },
        ),
    decreases rest.len(),
{
    if rest.len() == 0 {
        assert(keyword_run(rest) + tail == tail);
        assert(done + rest == done);
    } else {
        let keyword = rest.first();
        let later = rest.drop_first();
        let after = keyword_run(later) + tail;
        lemma_clean_is_inert(keyword);
        lemma_keyword_run_start(later, tail);
        let before = Metadata { keywords: done, ..metadata };
        lemma_scan_segment(Delimiter::NextKeyword, keyword, after, before);
        assert(keyword_run(rest) + tail == mark(Delimiter::NextKeyword) + keyword + after);
        assert(!done.contains(keyword)) by {
            if done.contains(keyword) {
                let k = choose|k: int| 0 <= k < done.len() && done[k] == keyword;
                assert((done + rest)[k] == keyword);
                assert((done + rest)[done.len() as int] == keyword);
            }
        }
        let longer = done.push(keyword);
        assert(noted(before, Delimiter::NextKeyword, keyword) == Metadata {
            keywords: longer,
            ..metadata
        });
        assert(longer + later == done + rest);
        assert forall|i: int| 0 <= i < later.len() implies is_clean(#[trigger] later[i]) by {
            assert(later[i] == rest[i + 1]);
        }
        lemma_scan_keywords(longer, later, tail, metadata);
    }
}

/// Reading the piece of a segment that is present notes the segment's
/// field and goes on behind the piece.
proof fn lemma_scan_piece(
    metadata: Metadata,
    segment: FilenameSegment,
    tail: Seq<char>,
    seen: Set<FilenameSegment>,
)
    requires
        metadata.is_well_formed(),
        !is_absent(metadata, segment),
        is_boundary(tail),
    ensures
        scanned(piece(metadata, segment, false) + tail, kept(metadata, seen)) == scanned(
            tail,
            kept(metadata, seen.insert(segment)),
        ),
{
    let before = kept(metadata, seen);
    let after = kept(metadata, seen.insert(segment));
    let p = piece(metadata, segment, false);
    match segment {
        FilenameSegment::Identifier => {
            let id = metadata.identifier->0;
            lemma_identifier_is_inert(id);
            lemma_scan_segment(Delimiter::Identifier, id, tail, before);
            assert(noted(before, Delimiter::Identifier, id) == after);
        },
        FilenameSegment::Signature => {
            let text = metadata.signature->0;
            lemma_clean_is_inert(text);
            lemma_scan_segment(Delimiter::Signature, text, tail, before);
            assert(noted(before, Delimiter::Signature, text) == after);
        },
        FilenameSegment::Title => {
            let text = metadata.title->0;
            lemma_clean_is_inert(text);
            lemma_scan_segment(Delimiter::Title, text, tail, before);
            assert(noted(before, Delimiter::Title, text) == after);
        },
        FilenameSegment::Keywords => {
            let first = metadata.keywords.first();
            let later = metadata.keywords.drop_first();
            let behind = keyword_run(later) + tail;
            lemma_clean_is_inert(first);
            lemma_keyword_run_start(later, tail);
            lemma_scan_segment(Delimiter::Keywords, first, behind, before);
            assert(p + tail == mark(Delimiter::Keywords) + first + behind);
            let started = noted(before, Delimiter::Keywords, first);
            assert(started == Metadata { keywords: seq![first], ..before });
            assert(seq![first] + later == metadata.keywords);
            assert forall|i: int| 0 <= i < later.len() implies is_clean(#[trigger] later[i]) by {
                assert(later[i] == metadata.keywords[i + 1]);
            }
            lemma_scan_keywords(seq![first], later, tail, before);
            assert(Metadata { keywords: seq![first] + later, ..before } == after);
        },
        FilenameSegment::Extension => {
            let text = metadata.extension;
            lemma_clean_is_inert(text);
            lemma_scan_segment(Delimiter::Extension, text, tail, before);
            assert(noted(before, Delimiter::Extension, text) == after);
        },
    }
}

/// Reading the pieces of the segments in `order` adds their fields to those
/// of the segments seen before.
proof fn lemma_resume(
    metadata: Metadata,
    order: Seq<FilenameSegment>,
    seen: Set<FilenameSegment>,
    leading: bool,
)
    requires
        metadata.is_well_formed(),
    ensures
        resumed(pieces(metadata, order, leading), kept(metadata, seen), leading) == Ok::<
            Metadata,
            ParseError,
        >(kept(metadata, seen.union(order.to_set()))),
    decreases order.len(),
{
    let s = pieces(metadata, order, leading);
    let before = kept(metadata, seen);
    if order.len() == 0 {
        assert(seen.union(order.to_set()) == seen);
        assert(s.skip(0) == s);
        assert(s.take(0) == s);
    } else {
        let segment = order.first();
        let later = order.drop_first();
        let head = piece(metadata, segment, leading);
        let tail = pieces(metadata, later, leading && head.len() == 0);
        let more = seen.insert(segment);
        assert(seen.union(order.to_set()) == more.union(later.to_set())) by {
            assert forall|x: FilenameSegment| order.to_set().contains(x) <==> (x == segment
                || later.to_set().contains(x)) by {
                if order.contains(x) {
                    let k = choose|k: int| 0 <= k < order.len() && order[k] == x;
                    if k > 0 {
                        assert(later[k - 1] == x);
                    }
                }
                if later.contains(x) {
                    let k = choose|k: int| 0 <= k < later.len() && later[k] == x;
                    assert(order[k + 1] == x);
                }
                assert(order[0] == segment);
            }
        }
        lemma_piece_start(metadata, segment, leading);
        if head.len() == 0 {
            assert(s == tail);
            assert(kept(metadata, more) == before) by {
                if segment == FilenameSegment::Keywords {
                    assert(metadata.keywords == Seq::<Seq<char>>::empty());
                }
                if segment == FilenameSegment::Extension {
                    assert(metadata.extension == Seq::<char>::empty());
                }
            }
            lemma_resume(metadata, later, more, leading);
        } else {
            lemma_pieces_start(metadata, later);
            lemma_resume(metadata, later, more, false);
            if leading && segment == FilenameSegment::Identifier {
                let id = metadata.identifier->0;
                lemma_identifier_is_inert(id);
                lemma_chunk_of_inert(id, tail);
                assert(noted(before, Delimiter::Identifier, id) == kept(metadata, more));
            } else {
                lemma_piece_start(metadata, segment, false);
                assert(head == piece(metadata, segment, false));
                lemma_delimiter_extends(head, tail);
                assert(chunk_len(s) == 0);
                assert(s.skip(0) == s);
                assert(s.take(0) == Seq::<char>::empty());
                lemma_scan_piece(metadata, segment, tail, seen);
            }
        }
    }
}

/// Writing metadata as a file name and reading the name gives the metadata
/// back: this holds of all well-formed metadata and of every order that
/// names each of the five segments, in particular of each of their
/// permutations.
pub proof fn lemma_round_trip(metadata: Metadata, order: Seq<FilenameSegment>)
    requires
        metadata.is_well_formed(),
        names_every_segment(order),
    ensures
        decoded(encoded(metadata, order)) == Ok::<Metadata, ParseError>(metadata),
{
    lemma_resume(metadata, order, Set::empty(), true);
    let all = Set::<FilenameSegment>::empty().union(order.to_set());
    assert(kept(metadata, Set::empty()) == Metadata::blank());
    assert(all.contains(FilenameSegment::Identifier));
    assert(all.contains(FilenameSegment::Signature));
    assert(all.contains(FilenameSegment::Title));
    assert(all.contains(FilenameSegment::Keywords));
    assert(all.contains(FilenameSegment::Extension));
    assert(kept(metadata, all) == metadata);
}

/// A name that was written reads back and is then written as before.
pub proof fn lemma_rewrite_is_stable(metadata: Metadata, order: Seq<FilenameSegment>)
    requires
        metadata.is_well_formed(),
        names_every_segment(order),
    ensures
        decoded(encoded(metadata, order)) matches Ok(read) && encoded(read, order) == encoded(
            metadata,
            order,
        ),
{
    lemma_round_trip(metadata, order);
}

} // verus!
