//! The five kinds of segment that make up a note's file name.

use vstd::prelude::*;

verus! {

/// One of the five parts a file name is assembled from.
#[derive(PartialEq, Eq, Structural, Copy, Clone, Debug)]
pub enum FilenameSegment {
    Identifier,
    Signature,
    Title,
    Keywords,
    Extension,
}

impl Default for FilenameSegment {
    fn default() -> (segment: FilenameSegment)
        ensures
            segment == FilenameSegment::Title,
    {
        FilenameSegment::Title
    }
}

/// The order in which segments are written when nothing else is configured.
pub open spec fn default_order() -> Seq<FilenameSegment> {
    seq![
        FilenameSegment::Identifier,
        FilenameSegment::Signature,
        FilenameSegment::Title,
        FilenameSegment::Keywords,
        FilenameSegment::Extension,
    ]
}

/// Returns the segments in their customary order.
pub fn default_segment_order() -> (order: [FilenameSegment; 5])
    ensures
        order@ == default_order(),
{
    let order = [
        FilenameSegment::Identifier,
        FilenameSegment::Signature,
        FilenameSegment::Title,
        FilenameSegment::Keywords,
        FilenameSegment::Extension,
    ];
    assert(order@ =~= default_order());
    order
}

/// Whether `order` names each of the five segments. Every permutation of
/// the five does.
pub open spec fn names_every_segment(order: Seq<FilenameSegment>) -> bool {
    &&& order.contains(FilenameSegment::Identifier)
    &&& order.contains(FilenameSegment::Signature)
    &&& order.contains(FilenameSegment::Title)
    &&& order.contains(FilenameSegment::Keywords)
    &&& order.contains(FilenameSegment::Extension)
}

/// Tells whether `order` names each of the five segments, and so each of
/// them once.
pub fn names_all_segments(order: &[FilenameSegment; 5]) -> (yes: bool)
    ensures
        yes == names_every_segment(order@),
{
    let mut identifier = false;
    let mut signature = false;
    let mut title = false;
    let mut keywords = false;
    let mut extension = false;
    let mut i: usize = 0;
    while i < 5
        invariant
            i <= 5,
            order@.len() == 5,
            identifier == order@.take(i as int).contains(FilenameSegment::Identifier),
            signature == order@.take(i as int).contains(FilenameSegment::Signature),
            title == order@.take(i as int).contains(FilenameSegment::Title),
            keywords == order@.take(i as int).contains(FilenameSegment::Keywords),
            extension == order@.take(i as int).contains(FilenameSegment::Extension),
        decreases 5 - i,
    {
        proof {
            let done = order@.take(i as int);
            let next = order@.take(i + 1);
            assert(next == done.push(order@[i as int]));
            assert forall|segment: FilenameSegment| next.contains(segment) <==> (done.contains(
                segment,
            ) || segment == order@[i as int]) by {
                if done.contains(segment) {
                    let k = choose|k: int| 0 <= k < done.len() && done[k] == segment;
                    assert(next[k] == segment);
                }
                if next.contains(segment) {
                    let k = choose|k: int| 0 <= k < next.len() && next[k] == segment;
                    if k < i {
                        assert(done[k] == segment);
                    }
                }
                assert(next[i as int] == order@[i as int]);
            }
        }
        match order[i] {
            FilenameSegment::Identifier => {
                identifier = true;
            },
            FilenameSegment::Signature => {
                signature = true;
            },
            FilenameSegment::Title => {
                title = true;
            },
            FilenameSegment::Keywords => {
                keywords = true;
            },
            FilenameSegment::Extension => {
                extension = true;
            },
        }
        i += 1;
    }
    proof {
        assert(order@.take(5) == order@);
    }
    identifier && signature && title && keywords && extension
}

} // verus!
