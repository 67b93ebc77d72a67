//! Sets of characters, and the characters that are never left in the text of
//! a segment.

use std::collections::HashSet;
use vstd::prelude::*;

verus! {

/// Separates the words of a title, a signature or a keyword.
pub const WORD_SEPARATOR: char = '-';

/// Separates one keyword from the next.
pub const KEYWORD_SEPARATOR: char = '_';

/// Introduces the file extension.
pub const EXTENSION_MARK: char = '.';

/// Doubled, introduces an identifier that is not the first segment.
pub const IDENTIFIER_MARK: char = '@';

/// Doubled, introduces the signature.
pub const SIGNATURE_MARK: char = '=';

/// Separates the directories of a path.
pub const PATH_SEPARATOR: char = '/';

/// Whether `c` is one of the five characters that the file name grammar is
/// built from.
pub open spec fn is_reserved(c: char) -> bool {
    c == '@' || c == '=' || c == '-' || c == '_' || c == '.'
}

/// Whether `c` is illegal in the text of a segment whatever is configured:
/// the reserved characters are, and so is the path separator.
pub open spec fn is_mandatory(c: char) -> bool {
    is_reserved(c) || c == '/'
}

/// The characters that are illegal whatever is configured, as a set.
pub open spec fn mandatory_set() -> Set<char> {
    Set::new(|c: char| is_mandatory(c))
}

/// Whether `s` holds no path separator, and so names a file rather than a
/// path.
pub open spec fn has_no_path_separator(s: Seq<char>) -> bool {
    forall|i: int| 0 <= i < s.len() ==> #[trigger] s[i] != '/'
}

/// Whether `c` is white space: the code points that carry Unicode's
/// `White_Space` property.
pub open spec fn is_space(c: char) -> bool {
    let n = c as u32;
    (0x09 <= n <= 0x0D) || n == 0x20 || n == 0x85 || n == 0xA0 || n == 0x1680 || (0x2000 <= n
        <= 0x200A) || n == 0x2028 || n == 0x2029 || n == 0x202F || n == 0x205F || n == 0x3000
}

/// Decides [`is_reserved`].
pub fn reserved(c: char) -> (yes: bool)
    ensures
        yes == is_reserved(c),
{
    c == '@' || c == '=' || c == '-' || c == '_' || c == '.'
}

/// Decides [`is_mandatory`].
pub fn mandatory(c: char) -> (yes: bool)
    ensures
        yes == is_mandatory(c),
{
    reserved(c) || c == PATH_SEPARATOR
}

/// Decides [`is_space`].
pub fn space(c: char) -> (yes: bool)
    ensures
        yes == is_space(c),
{
    let n: u32 = c as u32;
    (0x09 <= n && n <= 0x0D) || n == 0x20 || n == 0x85 || n == 0xA0 || n == 0x1680 || (0x2000 <= n
        && n <= 0x200A) || n == 0x2028 || n == 0x2029 || n == 0x202F || n == 0x205F || n == 0x3000
}

/// `HashSet::contains` tells whether the set holds the value.
#[verifier::external_body]
pub(crate) fn contains_char(set: &HashSet<char>, c: char) -> (found: bool)
    ensures
        found == set@.contains(c),
{
    set.contains(&c)
}

/// `HashSet::insert` adds the value to the set and leaves every other member
/// in place.
#[verifier::external_body]
pub(crate) fn insert_char(set: &mut HashSet<char>, c: char)
    ensures
        final(set)@ == old(set)@.insert(c),
{
    set.insert(c);
}

/// `HashSet::clone` yields a set with the same members.
#[verifier::external_body]
pub(crate) fn clone_set(set: &HashSet<char>) -> (copy: HashSet<char>)
    ensures
        copy@ == set@,
{
    set.clone()
}

} // verus!
