use dn::segment::{default_segment_order, names_all_segments, FilenameSegment};

#[test]
fn default_order_starts_with_the_identifier() {
    let order = default_segment_order();
    assert_eq!(order[0], FilenameSegment::Identifier);
    assert_eq!(order[4], FilenameSegment::Extension);
}

#[test]
fn every_segment_has_to_be_named() {
    assert!(names_all_segments(&default_segment_order()));
    let reversed = [
        FilenameSegment::Extension,
        FilenameSegment::Keywords,
        FilenameSegment::Title,
        FilenameSegment::Signature,
        FilenameSegment::Identifier,
    ];
    assert!(names_all_segments(&reversed));
    let repeated = [
        FilenameSegment::Title,
        FilenameSegment::Title,
        FilenameSegment::Identifier,
        FilenameSegment::Signature,
        FilenameSegment::Keywords,
    ];
    assert!(!names_all_segments(&repeated));
}
