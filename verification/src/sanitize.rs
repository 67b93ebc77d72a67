//! Turning raw text into text that is safe inside a file name segment.
//!
//! Sanitising has two steps. The text is first folded to lower case, then
//! normalised: white space and word separators become single separators
//! between words, and illegal characters disappear.

use crate::charset::{
    contains_char, has_no_path_separator, is_mandatory, is_reserved, is_space, mandatory, space, WORD_SEPARATOR,
};
use crate::text::text_between;
use std::collections::HashSet;
use vstd::prelude::*;

verus! {

/// The lowercase mapping that `char::to_lowercase` gives for `c`.
pub uninterp spec fn lowercase_mapping(c: char) -> Seq<char>;

/// `char::to_lowercase` yields the lowercase mapping of a character, as one
/// or more characters. The mapping depends on the character alone.
#[verifier::external_body]
fn lowercase_mapping_of(c: char) -> (mapping: Vec<char>)
    ensures
        mapping@ == lowercase_mapping(c),
{
    c.to_lowercase().collect()
}

/// Whether `c` is one of the 128 ASCII characters.
pub open spec fn is_ascii_char(c: char) -> bool {
    (c as u32) < 128
}

/// `c` with an ASCII capital replaced by its small letter.
pub open spec fn ascii_lowered(c: char) -> char {
    if 'A' <= c && c <= 'Z' {
        ((c as u8 + 32) as u8) as char
    } else {
        c
    }
}

/// One step of lowering: ASCII is lowered by rule, every other character by
/// its lowercase mapping.
pub open spec fn lowered(c: char) -> Seq<char> {
    if is_ascii_char(c) {
        seq![ascii_lowered(c)]
    } else {
        lowercase_mapping(c)
    }
}

/// Whether lowering leaves `c` as it is.
pub open spec fn is_settled(c: char) -> bool {
    lowered(c) == seq![c]
}

/// Whether lowering leaves every character of `s` as it is.
pub open spec fn all_settled(s: Seq<char>) -> bool {
    forall|i: int| 0 <= i < s.len() ==> is_settled(#[trigger] s[i])
}

/// What a character is folded to: its lowering, provided that lowering it
/// again would change nothing; the character itself otherwise. Folding a
/// folded character therefore changes nothing.
pub open spec fn folded_char(c: char) -> Seq<char> {
    if all_settled(lowered(c)) {
        lowered(c)
    } else {
        seq![c]
    }
}

/// `s` with every character folded.
pub open spec fn case_folded(s: Seq<char>) -> Seq<char>
    decreases s.len(),
{
    if s.len() == 0 {
        Seq::empty()
    } else {
        case_folded(s.drop_last()) + folded_char(s.last())
    }
}

/// Whether `c` ends a word: white space and the word separator do.
pub open spec fn is_break(c: char) -> bool {
    c == '-' || is_space(c)
}

/// Whether `c` survives normalising as itself: it ends no word, is not
/// illegal whatever is configured, and is not in `illegal`.
pub open spec fn is_kept(c: char, illegal: Set<char>) -> bool {
    !is_break(c) && !is_mandatory(c) && !illegal.contains(c)
}

/// The kept characters of `s`, with one separator wherever at least one
/// break stood between two of them or after the last.
pub open spec fn squeezed(s: Seq<char>, illegal: Set<char>) -> Seq<char>
    decreases s.len(),
{
    if s.len() == 0 {
        Seq::empty()
    } else {
        let before = squeezed(s.drop_last(), illegal);
        let c = s.last();
        if is_break(c) {
            if before.len() == 0 || before.last() == '-' {
                before
            } else {
                before.push('-')
            }
        } else if is_kept(c, illegal) {
            before.push(c)
        } else {
            before
        }
    }
}

/// `s` without a separator at its end.
pub open spec fn trimmed(s: Seq<char>) -> Seq<char> {
    if s.len() > 0 && s.last() == '-' {
        s.drop_last()
    } else {
        s
    }
}

/// The words of `s` joined by single separators: every illegal or mandatory
/// character is gone, every run of breaks between two words has become one
/// separator, and no separator stands at either end.
pub open spec fn normalized(s: Seq<char>, illegal: Set<char>) -> Seq<char> {
    trimmed(squeezed(s, illegal))
}

/// What sanitising makes of `raw`.
pub open spec fn sanitized(raw: Seq<char>, illegal: Set<char>) -> Seq<char> {
    normalized(case_folded(raw), illegal)
}

/// Whether `s` is made of words joined by single separators, where a word
/// holds only characters that normalising keeps.
pub open spec fn is_tidy(s: Seq<char>, illegal: Set<char>) -> bool {
    &&& forall|i: int| 0 <= i < s.len() ==> #[trigger] s[i] == '-' || is_kept(s[i], illegal)
    &&& forall|i: int| 0 <= i < s.len() - 1 ==> !(#[trigger] s[i] == '-' && s[i + 1] == '-')
    &&& s.len() > 0 ==> s[0] != '-' && s.last() != '-'
}

/// Whether `s` can stand in a file name segment: it is not empty, holds no
/// reserved character but the word separator, and holds that one only
/// between two other characters.
pub open spec fn is_clean(s: Seq<char>) -> bool {
    &&& s.len() > 0
    &&& forall|i: int| 0 <= i < s.len() ==> #[trigger] s[i] == '-' || !is_reserved(s[i])
    &&& forall|i: int| 0 <= i < s.len() - 1 ==> !(#[trigger] s[i] == '-' && s[i + 1] == '-')
    &&& s[0] != '-'
    &&& s.last() != '-'
}

proof fn lemma_squeezed_shape(s: Seq<char>, illegal: Set<char>)
    ensures
        forall|i: int|
            0 <= i < squeezed(s, illegal).len() ==> #[trigger] squeezed(s, illegal)[i] == '-'
                || is_kept(squeezed(s, illegal)[i], illegal),
        forall|i: int|
            0 <= i < squeezed(s, illegal).len() ==> #[trigger] squeezed(s, illegal)[i] == '-'
                || s.contains(squeezed(s, illegal)[i]),
        forall|i: int|
            0 <= i < squeezed(s, illegal).len() - 1 ==> !(#[trigger] squeezed(s, illegal)[i] == '-'
                && squeezed(s, illegal)[i + 1] == '-'),
        squeezed(s, illegal).len() > 0 ==> squeezed(s, illegal)[0] != '-',
    decreases s.len(),
{
    if s.len() > 0 {
        let head = s.drop_last();
        lemma_squeezed_shape(head, illegal);
        let before = squeezed(head, illegal);
        let after = squeezed(s, illegal);
        assert forall|i: int| 0 <= i < after.len() implies #[trigger] after[i] == '-' || s.contains(
            after[i],
        ) by {
            if i < before.len() {
                if before[i] != '-' {
                    let k = choose|k: int| 0 <= k < head.len() && head[k] == before[i];
                    assert(s[k] == before[i]);
                }
            } else {
                assert(after[i] == '-' || after[i] == s.last());
                assert(s[s.len() - 1] == s.last());
            }
        }
    }
}

/// Normalised text is tidy.
pub proof fn lemma_normalized_tidy(s: Seq<char>, illegal: Set<char>)
    ensures
        is_tidy(normalized(s, illegal), illegal),
        forall|i: int|
            0 <= i < normalized(s, illegal).len() ==> #[trigger] normalized(s, illegal)[i] == '-'
                || s.contains(normalized(s, illegal)[i]),
{
    lemma_squeezed_shape(s, illegal);
    let q = squeezed(s, illegal);
    let t = normalized(s, illegal);
    if q.len() > 0 && q.last() == '-' {
        assert(forall|i: int| 0 <= i < t.len() ==> t[i] == q[i]);
        if t.len() > 0 {
            assert(!(q[t.len() - 1] == '-' && q[t.len() - 1 + 1] == '-'));
        }
    }
}

proof fn lemma_squeezed_tidy_prefix(t: Seq<char>, illegal: Set<char>, n: int)
    requires
        is_tidy(t, illegal),
        0 <= n <= t.len(),
    ensures
        squeezed(t.take(n), illegal) == t.take(n),
    decreases n,
{
    if n > 0 {
        lemma_squeezed_tidy_prefix(t, illegal, n - 1);
        assert(t.take(n).drop_last() == t.take(n - 1));
        assert(t.take(n).last() == t[n - 1]);
        let before = t.take(n - 1);
        if t[n - 1] == '-' {
            assert(n - 1 > 0);
            assert(before.last() == t[n - 2]);
            assert(!(t[n - 2] == '-' && t[n - 2 + 1] == '-'));
        }
        assert(t.take(n) == before.push(t[n - 1]));
    } else {
        assert(t.take(0) == Seq::<char>::empty());
    }
}

/// Normalising leaves tidy text as it is.
pub proof fn lemma_tidy_is_normal(t: Seq<char>, illegal: Set<char>)
    requires
        is_tidy(t, illegal),
    ensures
        normalized(t, illegal) == t,
{
    lemma_squeezed_tidy_prefix(t, illegal, t.len() as int);
    assert(t.take(t.len() as int) == t);
}

/// Normalising twice gives what normalising once gives.
pub proof fn lemma_normalized_idempotent(s: Seq<char>, illegal: Set<char>)
    ensures
        normalized(normalized(s, illegal), illegal) == normalized(s, illegal),
{
    lemma_normalized_tidy(s, illegal);
    lemma_tidy_is_normal(normalized(s, illegal), illegal);
}

/// Whether folding leaves every character of `s` as it is.
pub open spec fn all_folded(s: Seq<char>) -> bool {
    forall|i: int| 0 <= i < s.len() ==> folded_char(#[trigger] s[i]) == seq![s[i]]
}

proof fn lemma_folded_char_fixed(c: char)
    ensures
        all_folded(folded_char(c)),
{
    let f = folded_char(c);
    assert forall|i: int| 0 <= i < f.len() implies folded_char(#[trigger] f[i]) == seq![f[i]] by {
        let x = f[i];
        if all_settled(lowered(c)) {
            assert(is_settled(lowered(c)[i]));
            assert(lowered(x) == seq![x]);
            assert(all_settled(lowered(x))) by {
                assert(lowered(x)[0] == x);
            }
        } else {
            assert(x == c);
        }
    }
}

proof fn lemma_ascii_folded(c: char)
    requires
        is_ascii_char(c),
    ensures
        folded_char(c) == seq![ascii_lowered(c)],
        folded_char(ascii_lowered(c)) == seq![ascii_lowered(c)],
        is_ascii_char(ascii_lowered(c)),
{
    let d = ascii_lowered(c);
    assert(is_ascii_char(d));
    assert(ascii_lowered(d) == d);
    assert(lowered(d) == seq![d]);
    assert(all_settled(lowered(c))) by {
        assert(lowered(c)[0] == d);
    }
    assert(all_settled(lowered(d))) by {
        assert(lowered(d)[0] == d);
    }
}

/// Folded text holds only characters that folding leaves as they are.
pub proof fn lemma_case_folded_fixed(s: Seq<char>)
    ensures
        all_folded(case_folded(s)),
    decreases s.len(),
{
    if s.len() > 0 {
        lemma_case_folded_fixed(s.drop_last());
        lemma_folded_char_fixed(s.last());
        let a = case_folded(s.drop_last());
        let b = folded_char(s.last());
        assert forall|i: int| 0 <= i < (a + b).len() implies folded_char(#[trigger] (a + b)[i])
            == seq![(a + b)[i]] by {
            if i < a.len() {
                assert((a + b)[i] == a[i]);
            } else {
                assert((a + b)[i] == b[i - a.len()]);
            }
        }
    }
}

/// Folding leaves text as it is when it leaves each of its characters so.
pub proof fn lemma_all_folded_is_fixed(s: Seq<char>)
    requires
        all_folded(s),
    ensures
        case_folded(s) == s,
    decreases s.len(),
{
    if s.len() > 0 {
        let head = s.drop_last();
        assert forall|i: int| 0 <= i < head.len() implies folded_char(#[trigger] head[i])
            == seq![head[i]] by {
            assert(head[i] == s[i]);
        }
        lemma_all_folded_is_fixed(head);
        assert(folded_char(s.last()) == seq![s.last()]);
        assert(head + seq![s.last()] == s);
    } else {
        assert(s == Seq::<char>::empty());
    }
}

/// Sanitising twice gives what sanitising once gives.
pub proof fn lemma_sanitized_idempotent(raw: Seq<char>, illegal: Set<char>)
    ensures
        sanitized(sanitized(raw, illegal), illegal) == sanitized(raw, illegal),
{
    let f = case_folded(raw);
    let t = sanitized(raw, illegal);
    lemma_case_folded_fixed(raw);
    lemma_normalized_tidy(f, illegal);
    assert forall|i: int| 0 <= i < t.len() implies folded_char(#[trigger] t[i]) == seq![t[i]] by {
        if t[i] == '-' {
            lemma_ascii_folded('-');
        } else {
            let k = choose|k: int| 0 <= k < f.len() && f[k] == t[i];
            assert(folded_char(f[k]) == seq![f[k]]);
        }
    }
    lemma_all_folded_is_fixed(t);
    lemma_tidy_is_normal(t, illegal);
}

/// Sanitised text is empty or clean, whatever the set of illegal characters.
pub proof fn lemma_sanitized_clean(raw: Seq<char>, illegal: Set<char>)
    ensures
        sanitized(raw, illegal).len() == 0 || is_clean(sanitized(raw, illegal)),
        is_tidy(sanitized(raw, illegal), illegal),
{
    lemma_normalized_tidy(case_folded(raw), illegal);
}

/// Sanitised text holds no path separator, whatever the set of illegal
/// characters.
pub proof fn lemma_sanitized_has_no_path_separator(raw: Seq<char>, illegal: Set<char>)
    ensures
        has_no_path_separator(sanitized(raw, illegal)),
{
    lemma_sanitized_clean(raw, illegal);
    let t = sanitized(raw, illegal);
    assert forall|i: int| 0 <= i < t.len() implies #[trigger] t[i] != '/' by {
        assert(t[i] == '-' || is_kept(t[i], illegal));
    }
}

/// Lowers one character.
fn lower(c: char) -> (mapping: Vec<char>)
    ensures
        mapping@ == lowered(c),
{
    if (c as u32) < 128 {
        let mut mapping: Vec<char> = Vec::new();
        if 'A' <= c && c <= 'Z' {
            mapping.push((c as u8 + 32) as char);
        } else {
            mapping.push(c);
        }
        assert(mapping@ == seq![ascii_lowered(c)]);
        mapping
    } else {
        lowercase_mapping_of(c)
    }
}

/// Decides [`is_settled`].
fn settled(c: char) -> (yes: bool)
    ensures
        yes == is_settled(c),
{
    let mapping = lower(c);
    let yes = mapping.len() == 1 && mapping[0] == c;
    proof {
        if yes {
            assert(mapping@ == seq![c]);
        } else if mapping@ == seq![c] {
            assert(mapping@.len() == 1 && mapping@[0] == c);
        }
    }
    yes
}

/// Folds one character.
fn fold_char(c: char) -> (folded: Vec<char>)
    ensures
        folded@ == folded_char(c),
{
    let mapping = lower(c);
    let mut i: usize = 0;
    while i < mapping.len()
        invariant
            i <= mapping.len(),
            mapping@ == lowered(c),
            forall|k: int| 0 <= k < i ==> is_settled(#[trigger] mapping@[k]),
        decreases mapping.len() - i,
    {
        if !settled(mapping[i]) {
            let mut single: Vec<char> = Vec::new();
            single.push(c);
            assert(single@ == seq![c]);
            return single;
        }
        i += 1;
    }
    mapping
}

/// Folds `text` to lower case, character by character.
pub fn fold_case(text: &str) -> (folded: Vec<char>)
    ensures
        folded@ == case_folded(text@),
{
    let mut folded: Vec<char> = Vec::new();
    for c in it: text.chars()
        invariant
            it.seq() == text@,
            folded@ == case_folded(it.seq().take(it.index() as int)),
    {
        let mut piece = fold_char(c);
        proof {
            let done = it.seq().take(it.index() as int);
            let next = it.seq().take(it.index() + 1);
            assert(next.drop_last() == done);
            assert(next.last() == c);
        }
        folded.append(&mut piece);
    }
    proof {
        assert(text@.take(text@.len() as int) == text@);
    }
    folded
}

/// Normalises text that has been folded already: see [`normalized`].
pub fn normalize(chars: &Vec<char>, illegal: &HashSet<char>) -> (text: String)
    ensures
        text@ == normalized(chars@, illegal@),
{
    let mut out: Vec<char> = Vec::new();
    let mut i: usize = 0;
    while i < chars.len()
        invariant
            i <= chars.len(),
            out@ == squeezed(chars@.take(i as int), illegal@),
            out.len() <= i,
        decreases chars.len() - i,
    {
        let c = chars[i];
        proof {
            let next = chars@.take(i + 1);
            assert(next.drop_last() == chars@.take(i as int));
            assert(next.last() == c);
        }
        if c == WORD_SEPARATOR || space(c) {
            if out.len() > 0 && out[out.len() - 1] != WORD_SEPARATOR {
                out.push(WORD_SEPARATOR);
            }
        } else if !mandatory(c) && !contains_char(illegal, c) {
            out.push(c);
        }
        i += 1;
    }
    proof {
        assert(chars@.take(chars.len() as int) == chars@);
    }
    let keep = if out.len() > 0 && out[out.len() - 1] == WORD_SEPARATOR {
        out.len() - 1
    } else {
        out.len()
    };
    let text = text_between(&out, 0, keep);
    proof {
        if keep < out.len() {
            assert(out@.subrange(0, keep as int) == out@.drop_last());
        } else {
            assert(out@.subrange(0, keep as int) == out@);
        }
    }
    text
}

/// Sanitises `raw` for use in a file name segment. The text is folded to
/// lower case; white space and word separators become single separators
/// between words; the reserved characters, the path separator and the
/// characters in `illegal` are removed.
/// The result may be empty.
pub fn sanitize(raw: &str, illegal: &HashSet<char>) -> (text: String)
    ensures
        text@ == sanitized(raw@, illegal@),
        text@.len() == 0 || is_clean(text@),
        is_tidy(text@, illegal@),
        has_no_path_separator(text@),
{
    let folded = fold_case(raw);
    proof {
        lemma_sanitized_clean(raw@, illegal@);
        lemma_sanitized_has_no_path_separator(raw@, illegal@);
    }
    normalize(&folded, illegal)
}

} // verus!
