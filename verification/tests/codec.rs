use dn::codec::{decode, encode, ParseError};
use dn::metadata::NoteMetadata;
use dn::segment::{default_segment_order, FilenameSegment};

fn sample() -> NoteMetadata {
    NoteMetadata {
        identifier: Some("20240101T120000".to_owned()),
        signature: Some("1a".to_owned()),
        title: Some("old-title".to_owned()),
        keywords: vec!["foo".to_owned(), "bar-baz".to_owned()],
        extension: "txt".to_owned(),
    }
}

#[test]
fn encode_writes_segments_in_default_order() {
    let name = encode(&sample(), &default_segment_order());
    assert_eq!(name, "20240101T120000==1a--old-title__foo_bar-baz.txt");
}

#[test]
fn encode_leaves_out_absent_segments() {
    let metadata = NoteMetadata {
        identifier: Some("20240101T120000".to_owned()),
        signature: None,
        title: Some("old-title".to_owned()),
        keywords: vec![],
        extension: "txt".to_owned(),
    };
    assert_eq!(encode(&metadata, &default_segment_order()), "20240101T120000--old-title.txt");
}

#[test]
fn encode_marks_an_identifier_that_is_not_first() {
    let order = [
        FilenameSegment::Title,
        FilenameSegment::Identifier,
        FilenameSegment::Signature,
        FilenameSegment::Keywords,
        FilenameSegment::Extension,
    ];
    assert_eq!(encode(&sample(), &order), "--old-title@@20240101T120000==1a__foo_bar-baz.txt");
}

#[test]
fn encode_of_blank_metadata_is_empty() {
    assert_eq!(encode(&NoteMetadata::blank(), &default_segment_order()), "");
}

#[test]
fn decode_reads_every_segment() {
    let decoded = decode("20240101T120000==1a--old-title__foo_bar-baz.txt");
    assert_eq!(decoded, Ok(sample()));
}

#[test]
fn decode_bare_name_has_only_an_extension() {
    let decoded = decode("randomfile.txt").unwrap();
    assert_eq!(decoded.identifier, None);
    assert_eq!(decoded.title, None);
    assert_eq!(decoded.signature, None);
    assert!(decoded.keywords.is_empty());
    assert_eq!(decoded.extension, "txt");
}

#[test]
fn decode_dangling_keyword_delimiter_fails() {
    assert_eq!(decode("note__"), Err(ParseError::Unterminated(FilenameSegment::Keywords)));
}

#[test]
fn decode_dangling_delimiters_fail() {
    assert_eq!(decode("a--"), Err(ParseError::Unterminated(FilenameSegment::Title)));
    assert_eq!(decode("a=="), Err(ParseError::Unterminated(FilenameSegment::Signature)));
    assert_eq!(decode("a@@"), Err(ParseError::Unterminated(FilenameSegment::Identifier)));
    assert_eq!(decode("a."), Err(ParseError::Unterminated(FilenameSegment::Extension)));
    assert_eq!(decode("--t__a_.txt"), Err(ParseError::Unterminated(FilenameSegment::Keywords)));
    assert_eq!(decode("--.txt"), Err(ParseError::Unterminated(FilenameSegment::Title)));
}

#[test]
fn decode_name_without_extension_is_no_error() {
    let decoded = decode("20240101T120000--title").unwrap();
    assert_eq!(decoded.identifier, Some("20240101T120000".to_owned()));
    assert_eq!(decoded.title, Some("title".to_owned()));
    assert_eq!(decoded.extension, "");
}

#[test]
fn decode_empty_name_is_blank() {
    assert_eq!(decode(""), Ok(NoteMetadata::blank()));
}

#[test]
fn decode_last_extension_wins() {
    assert_eq!(decode("archive.tar.gz").unwrap().extension, "gz");
}

#[test]
fn decode_drops_a_repeated_keyword() {
    assert_eq!(decode("__a_b_a.txt").unwrap().keywords, vec!["a".to_owned(), "b".to_owned()]);
}

#[test]
fn decode_ignores_an_identifier_of_the_wrong_shape() {
    assert_eq!(decode("--title@@2024.txt").unwrap().identifier, None);
    assert_eq!(decode("2024010T1120000--title.txt").unwrap().identifier, None);
}

#[test]
fn round_trip_in_every_order() {
    let segments = default_segment_order();
    let metadata = sample();
    let mut count = 0;
    for a in 0..5 {
        for b in 0..5 {
            for c in 0..5 {
                for d in 0..5 {
                    for e in 0..5 {
                        let picked = [a, b, c, d, e];
                        let mut seen = [false; 5];
                        for p in picked {
                            seen[p] = true;
                        }
                        if seen.iter().any(|s| !s) {
                            continue;
                        }
                        let order = [
                            segments[a],
                            segments[b],
                            segments[c],
                            segments[d],
                            segments[e],
                        ];
                        let name = encode(&metadata, &order);
                        assert_eq!(decode(&name), Ok(metadata.clone()), "name {name}");
                        assert_eq!(encode(&decode(&name).unwrap(), &order), name);
                        count += 1;
                    }
                }
            }
        }
    }
    assert_eq!(count, 120);
}

#[test]
fn round_trip_of_sparse_metadata() {
    let order = [
        FilenameSegment::Signature,
        FilenameSegment::Keywords,
        FilenameSegment::Identifier,
        FilenameSegment::Extension,
        FilenameSegment::Title,
    ];
    let metadata = NoteMetadata {
        identifier: Some("19991231T235959".to_owned()),
        signature: None,
        title: None,
        keywords: vec![],
        extension: String::new(),
    };
    let name = encode(&metadata, &order);
    assert_eq!(name, "19991231T235959");
    assert_eq!(decode(&name), Ok(metadata));
}
