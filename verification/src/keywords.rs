//! Keywords: how they are read from what the user typed, and how the
//! keywords of a note change when some are added and some removed.

use crate::metadata::{contains_text, texts};
use crate::sanitize::{is_clean, lemma_sanitized_clean, sanitize, sanitized};
use crate::text::{chars_of, text_between};
use std::collections::HashSet;
use vstd::prelude::*;

verus! {

/// Separates the keywords in what the user typed.
pub const LIST_SEPARATOR: char = ',';

/// The fields of `s`: the stretches between its list separators. Text
/// without a separator is one field, and so is empty text.
pub open spec fn fields(s: Seq<char>) -> Seq<Seq<char>>
    decreases s.len(),
{
    if s.len() == 0 {
        seq![Seq::empty()]
    } else {
        let before = fields(s.drop_last());
        if s.last() == ',' {
            before.push(Seq::empty())
        } else {
            before.drop_last().push(before.last().push(s.last()))
        }
    }
}

/// The keywords that `raw` gives: each entry sanitised, in the order of
/// their first occurrence, without the empty ones.
pub open spec fn cleaned(raw: Seq<Seq<char>>, illegal: Set<char>) -> Seq<Seq<char>>
    decreases raw.len(),
{
    if raw.len() == 0 {
        Seq::empty()
    } else {
        let before = cleaned(raw.drop_last(), illegal);
        let keyword = sanitized(raw.last(), illegal);
        if keyword.len() == 0 || before.contains(keyword) {
            before
        } else {
            before.push(keyword)
        }
    }
}

/// The entries of `list` that `removed` does not hold, in their order.
pub open spec fn without(list: Seq<Seq<char>>, removed: Seq<Seq<char>>) -> Seq<Seq<char>>
    decreases list.len(),
{
    if list.len() == 0 {
        Seq::empty()
    } else {
        let before = without(list.drop_last(), removed);
        if removed.contains(list.last()) {
            before
        } else {
            before.push(list.last())
        }
    }
}

/// The keywords of a note after a change. A replacement supersedes the
/// current keywords; the additions are added; the removals are taken away
/// last, so that a keyword both added and removed is gone.
pub open spec fn resolved_keywords(
    current: Seq<Seq<char>>,
    replacement: Option<Seq<Seq<char>>>,
    additions: Seq<Seq<char>>,
    removals: Seq<Seq<char>>,
    illegal: Set<char>,
) -> Seq<Seq<char>> {
    let base = match replacement {
        Some(keywords) => keywords,
        None => current,
    };
    without(cleaned(base + additions, illegal), cleaned(removals, illegal))
}

/// Whether `list` holds only clean keywords, none of them twice.
pub open spec fn is_keyword_set(list: Seq<Seq<char>>) -> bool {
    &&& forall|i: int| 0 <= i < list.len() ==> is_clean(#[trigger] list[i])
    &&& list.no_duplicates()
}

/// What `cleaned` yields: a set of keywords, each the sanitised form of an
/// entry, and the sanitised form of every entry unless that is empty.
pub proof fn lemma_cleaned(raw: Seq<Seq<char>>, illegal: Set<char>)
    ensures
        is_keyword_set(cleaned(raw, illegal)),
        forall|i: int|
            0 <= i < cleaned(raw, illegal).len() ==> exists|j: int|
                0 <= j < raw.len() && #[trigger] cleaned(raw, illegal)[i] == sanitized(
                    raw[j],
                    illegal,
                ),
        forall|j: int|
            0 <= j < raw.len() && sanitized(#[trigger] raw[j], illegal).len() > 0 ==> cleaned(
                raw,
                illegal,
            ).contains(sanitized(raw[j], illegal)),
    decreases raw.len(),
{
    let out = cleaned(raw, illegal);
    if raw.len() > 0 {
        let head = raw.drop_last();
        let before = cleaned(head, illegal);
        let keyword = sanitized(raw.last(), illegal);
        lemma_cleaned(head, illegal);
        lemma_sanitized_clean(raw.last(), illegal);
        assert forall|i: int| 0 <= i < out.len() implies exists|j: int|
            0 <= j < raw.len() && #[trigger] out[i] == sanitized(raw[j], illegal) by {
            if i < before.len() {
                let j = choose|j: int| 0 <= j < head.len() && before[i] == sanitized(head[j], illegal);
                assert(raw[j] == head[j]);
                assert(out[i] == sanitized(raw[j], illegal));
            } else {
                assert(out[i] == sanitized(raw[raw.len() - 1], illegal));
            }
        }
        assert forall|j: int|
            0 <= j < raw.len() && sanitized(#[trigger] raw[j], illegal).len() > 0 implies out.contains(
            sanitized(raw[j], illegal),
        ) by {
            let k = sanitized(raw[j], illegal);
            if j < head.len() {
                assert(raw[j] == head[j]);
                assert(before.contains(k));
                let i = choose|i: int| 0 <= i < before.len() && before[i] == k;
                assert(out[i] == k);
            } else {
                if before.contains(k) {
                    let i = choose|i: int| 0 <= i < before.len() && before[i] == k;
                    assert(out[i] == k);
                } else {
                    assert(out[out.len() - 1] == k);
                }
            }
        }
    }
}

/// What `without` yields: the entries of `list` that `removed` lacks.
pub proof fn lemma_without(list: Seq<Seq<char>>, removed: Seq<Seq<char>>)
    ensures
        forall|k: Seq<char>| #[trigger]
            without(list, removed).contains(k) <==> list.contains(k) && !removed.contains(k),
        is_keyword_set(list) ==> is_keyword_set(without(list, removed)),
        removed.len() == 0 ==> without(list, removed) == list,
    decreases list.len(),
{
    let out = without(list, removed);
    if list.len() > 0 {
        let head = list.drop_last();
        let before = without(head, removed);
        lemma_without(head, removed);
        assert forall|k: Seq<char>| #[trigger]
            out.contains(k) <==> list.contains(k) && !removed.contains(k) by {
            if out.contains(k) {
                let i = choose|i: int| 0 <= i < out.len() && out[i] == k;
                if i < before.len() {
                    assert(before[i] == k);
                    assert(before.contains(k));
                    let j = choose|j: int| 0 <= j < head.len() && head[j] == k;
                    assert(list[j] == k);
                } else {
                    assert(list[list.len() - 1] == k);
                }
            }
            if list.contains(k) && !removed.contains(k) {
                let j = choose|j: int| 0 <= j < list.len() && list[j] == k;
                if j < head.len() {
                    assert(head[j] == k);
                    assert(before.contains(k));
                    let i = choose|i: int| 0 <= i < before.len() && before[i] == k;
                    assert(out[i] == k);
                } else {
                    assert(out[out.len() - 1] == k);
                }
            }
        }
        if is_keyword_set(list) {
            assert forall|i: int| 0 <= i < head.len() implies is_clean(#[trigger] head[i]) by {
                assert(head[i] == list[i]);
            }
            assert(head.no_duplicates()) by {
                assert forall|i: int, j: int|
                    0 <= i < head.len() && 0 <= j < head.len() && i != j implies head[i]
                    != head[j] by {
                    assert(head[i] == list[i] && head[j] == list[j]);
                }
            }
            if !removed.contains(list.last()) {
                assert(!before.contains(list.last())) by {
                    if before.contains(list.last()) {
                        assert(head.contains(list.last()));
                        let j = choose|j: int| 0 <= j < head.len() && head[j] == list.last();
                        assert(list[j] == list[list.len() - 1]);
                    }
                }
                assert(is_clean(list[list.len() - 1]));
            }
        }
        if removed.len() == 0 {
            assert(head.push(list.last()) == list);
        }
    } else {
        assert(list == Seq::<Seq<char>>::empty());
    }
}

/// What a change of keywords yields is a set of keywords, and holds what
/// the description of the change says.
pub proof fn lemma_resolved_keywords(
    current: Seq<Seq<char>>,
    replacement: Option<Seq<Seq<char>>>,
    additions: Seq<Seq<char>>,
    removals: Seq<Seq<char>>,
    illegal: Set<char>,
)
    ensures
        is_keyword_set(resolved_keywords(current, replacement, additions, removals, illegal)),
        forall|k: Seq<char>| #[trigger]
            resolved_keywords(current, replacement, additions, removals, illegal).contains(k) <==> (
            cleaned(
                match replacement {
                    Some(keywords) => keywords,
                    None => current,
                } + additions,
                illegal,
            ).contains(k) && !cleaned(removals, illegal).contains(k)),
{
    let base = match replacement {
        Some(keywords) => keywords,
        None => current,
    };
    lemma_cleaned(base + additions, illegal);
    lemma_without(cleaned(base + additions, illegal), cleaned(removals, illegal));
}

/// Removal wins: whatever is added, the keywords after a change hold the
/// sanitised form of no entry of the removals.
pub proof fn lemma_removal_wins(
    current: Seq<Seq<char>>,
    replacement: Option<Seq<Seq<char>>>,
    additions: Seq<Seq<char>>,
    removals: Seq<Seq<char>>,
    illegal: Set<char>,
    i: int,
)
    requires
        0 <= i < removals.len(),
    ensures
        !resolved_keywords(current, replacement, additions, removals, illegal).contains(
            sanitized(removals[i], illegal),
        ),
{
    let k = sanitized(removals[i], illegal);
    let out = resolved_keywords(current, replacement, additions, removals, illegal);
    lemma_resolved_keywords(current, replacement, additions, removals, illegal);
    lemma_cleaned(removals, illegal);
    if out.contains(k) {
        let j = choose|j: int| 0 <= j < out.len() && out[j] == k;
        assert(is_clean(out[j]));
    }
}

/// Replacing the keywords, with nothing added and nothing removed, leaves
/// the replacement, cleaned.
pub proof fn lemma_replacement_alone(
    current: Seq<Seq<char>>,
    replacement: Seq<Seq<char>>,
    illegal: Set<char>,
)
    ensures
        resolved_keywords(current, Some(replacement), Seq::empty(), Seq::empty(), illegal)
            == cleaned(replacement, illegal),
{
    assert(replacement + Seq::<Seq<char>>::empty() == replacement);
    assert(cleaned(Seq::<Seq<char>>::empty(), illegal).len() == 0);
    lemma_without(cleaned(replacement, illegal), cleaned(Seq::<Seq<char>>::empty(), illegal));
}

/// Splits `text` at its list separators: see [`fields`].
pub fn split_list(text: &str) -> (list: Vec<String>)
    ensures
        texts(list@) == fields(text@),
{
    let chars = chars_of(text);
    let mut list: Vec<String> = Vec::new();
    let mut from: usize = 0;
    let mut at: usize = 0;
    proof {
        assert(chars@.take(0) == Seq::<char>::empty());
        assert(chars@.subrange(0, 0) == Seq::<char>::empty());
        assert(texts(list@).push(Seq::<char>::empty()) == seq![Seq::<char>::empty()]);
    }
    while at < chars.len()
        invariant
            from <= at <= chars.len(),
            chars@ == text@,
            fields(chars@.take(at as int)) == texts(list@).push(
                chars@.subrange(from as int, at as int),
            ),
        decreases chars.len() - at,
    {
        let ghost before = fields(chars@.take(at as int));
        let ghost next = chars@.take(at + 1);
        proof {
            assert(next.drop_last() == chars@.take(at as int));
            assert(next.last() == chars@[at as int]);
            assert(before.last() == chars@.subrange(from as int, at as int));
            assert(before.drop_last() == texts(list@));
        }
        if chars[at] == LIST_SEPARATOR {
            let ghost old_list = list@;
            let field = text_between(&chars, from, at);
            list.push(field);
            from = at + 1;
            proof {
                assert(texts(list@) == texts(old_list).push(field@));
                assert(chars@.subrange(from as int, at + 1) == Seq::<char>::empty());
            }
        } else {
            proof {
                assert(chars@.subrange(from as int, at + 1) == chars@.subrange(
                    from as int,
                    at as int,
                ).push(chars@[at as int]));
            }
        }
        at += 1;
    }
    let ghost old_list = list@;
    let field = text_between(&chars, from, at);
    list.push(field);
    proof {
        assert(chars@.take(at as int) == chars@);
        assert(texts(list@) == texts(old_list).push(field@));
    }
    list
}

/// Adds to `out` the keywords that `raw` gives and `out` lacks.
fn clean_into(out: &mut Vec<String>, raw: &Vec<String>, illegal: &HashSet<char>, Ghost(seen): Ghost<
    Seq<Seq<char>>,
>)
    requires
        texts(old(out)@) == cleaned(seen, illegal@),
    ensures
        texts(final(out)@) == cleaned(seen + texts(raw@), illegal@),
{
    let mut i: usize = 0;
    proof {
        assert(seen + texts(raw@).take(0) == seen);
    }
    while i < raw.len()
        invariant
            i <= raw.len(),
            texts(out@) == cleaned(seen + texts(raw@).take(i as int), illegal@),
        decreases raw.len() - i,
    {
        let keyword = sanitize(raw[i].as_str(), illegal);
        proof {
            let done = seen + texts(raw@).take(i as int);
            let next = seen + texts(raw@).take(i + 1);
            assert(next.drop_last() == done);
            assert(next.last() == raw@[i as int]@);
        }
        if !keyword.as_str().is_empty() && !contains_text(out, &keyword) {
            let ghost before = out@;
            out.push(keyword);
            assert(texts(out@) == texts(before).push(keyword@));
        }
        i += 1;
    }
    proof {
        assert(texts(raw@).take(raw.len() as int) == texts(raw@));
    }
}

/// Sanitises the entries of `raw` into keywords: see [`cleaned`].
pub fn clean_keywords(raw: &Vec<String>, illegal: &HashSet<char>) -> (keywords: Vec<String>)
    ensures
        texts(keywords@) == cleaned(texts(raw@), illegal@),
        is_keyword_set(texts(keywords@)),
{
    let mut keywords: Vec<String> = Vec::new();
    proof {
        assert(texts(keywords@) == cleaned(Seq::<Seq<char>>::empty(), illegal@));
        assert(Seq::<Seq<char>>::empty() + texts(raw@) == texts(raw@));
        lemma_cleaned(texts(raw@), illegal@);
    }
    clean_into(&mut keywords, raw, illegal, Ghost(Seq::empty()));
    keywords
}

/// Computes the keywords of a note after a change. If `replacement` is
/// given it supersedes `current`. The `additions` are added, then the
/// `removals` are taken away. Every entry is sanitised first; the result
/// holds no keyword twice and no empty one.
pub fn resolve_keywords(
    current: &Vec<String>,
    replacement: Option<&Vec<String>>,
    additions: &Vec<String>,
    removals: &Vec<String>,
    illegal: &HashSet<char>,
) -> (keywords: Vec<String>)
    ensures
        texts(keywords@) == resolved_keywords(
            texts(current@),
            match replacement {
                Some(list) => Some(texts(list@)),
                None => None,
            },
            texts(additions@),
            texts(removals@),
            illegal@,
        ),
        is_keyword_set(texts(keywords@)),
        forall|i: int|
            0 <= i < removals@.len() ==> !texts(keywords@).contains(
                sanitized(#[trigger] removals@[i]@, illegal@),
            ),
{
    let base = match replacement {
        Some(list) => list,
        None => current,
    };
    let mut kept: Vec<String> = Vec::new();
    proof {
        assert(texts(kept@) == cleaned(Seq::<Seq<char>>::empty(), illegal@));
        assert(Seq::<Seq<char>>::empty() + texts(base@) == texts(base@));
    }
    clean_into(&mut kept, base, illegal, Ghost(Seq::empty()));
    clean_into(&mut kept, additions, illegal, Ghost(texts(base@)));
    let removed = clean_keywords(removals, illegal);
    let mut keywords: Vec<String> = Vec::new();
    let mut i: usize = 0;
    proof {
        assert(texts(kept@).take(0) == Seq::<Seq<char>>::empty());
    }
    while i < kept.len()
        invariant
            i <= kept.len(),
            texts(keywords@) == without(texts(kept@).take(i as int), texts(removed@)),
        decreases kept.len() - i,
    {
        proof {
            let next = texts(kept@).take(i + 1);
            assert(next.drop_last() == texts(kept@).take(i as int));
            assert(next.last() == kept@[i as int]@);
        }
        if !contains_text(&removed, &kept[i]) {
            let ghost before = keywords@;
            keywords.push(kept[i].clone());
            assert(texts(keywords@) == texts(before).push(kept@[i as int]@));
        }
        i += 1;
    }
    proof {
        assert(texts(kept@).take(kept.len() as int) == texts(kept@));
        let replaced = match replacement {
            Some(list) => Some(texts(list@)),
            None => None,
        };
        lemma_resolved_keywords(
            texts(current@),
            replaced,
            texts(additions@),
            texts(removals@),
            illegal@,
        );
        assert forall|i: int| 0 <= i < removals@.len() implies !texts(keywords@).contains(
            sanitized(#[trigger] removals@[i]@, illegal@),
        ) by {
            lemma_removal_wins(
                texts(current@),
                replaced,
                texts(additions@),
                texts(removals@),
                illegal@,
                i,
            );
            assert(texts(removals@)[i] == removals@[i]@);
        }
    }
    keywords
}

} // verus!
