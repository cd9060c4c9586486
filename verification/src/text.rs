//! Small helpers on text that the rest of the crate shares.

use crate::seqs::distinct;
use crate::seqs::lemma_with_new;
use crate::seqs::with_new;
use vstd::hash_set::StringHashSet;
use vstd::prelude::*;

verus! {

/// Whether two string slices hold the same characters.
pub fn same_text(a: &str, b: &str) -> (same: bool)
    ensures
        same == (a@ == b@),
{
    let left: String = a.to_owned();
    let right: String = b.to_owned();
    left == right
}

/// Whether an optional string and an optional string hold the same characters.
pub open spec fn opt_text(value: Option<String>) -> Option<Seq<char>> {
    match value {
        Some(text) => Some(text@),
        None => None,
    }
}

/// A copy of an optional string.
pub fn copy_opt_text(value: &Option<String>) -> (copy: Option<String>)
    ensures
        opt_text(copy) == opt_text(*value),
{
    match value {
        Some(text) => Some(text.clone()),
        None => None,
    }
}

/// The views of a sequence of strings.
pub open spec fn texts(items: Seq<String>) -> Seq<Seq<char>> {
    Seq::new(items.len(), |i: int| items[i]@)
}

/// A copy of a list of strings.
pub fn copy_texts(items: &Vec<String>) -> (copy: Vec<String>)
    ensures
        texts(copy@) == texts(items@),
{
    let mut copy: Vec<String> = Vec::new();
    let mut i: usize = 0;
    while i < items.len()
        invariant
            i <= items.len(),
            copy.len() == i,
            forall|j: int| 0 <= j < i ==> copy[j]@ == items[j]@,
        decreases items.len() - i,
    {
        copy.push(items[i].clone());
        i += 1;
    }
    assert(texts(copy@) =~= texts(items@));
    copy
}

/// Whether `items` holds a string with the characters of `needle`.
pub fn contains_text(items: &Vec<String>, needle: &str) -> (found: bool)
    ensures
        found == texts(items@).contains(needle@),
{
    let mut i: usize = 0;
    while i < items.len()
        invariant
            i <= items.len(),
            forall|j: int| 0 <= j < i ==> texts(items@)[j] != needle@,
        decreases items.len() - i,
    {
        if same_text(items[i].as_str(), needle) {
            assert(texts(items@)[i as int] == needle@);
            return true;
        }
        i += 1;
    }
    false
}


/// Whether `text` begins with `prefix`.
pub fn has_prefix(text: &str, prefix: &str) -> (begins: bool)
    ensures
        begins == prefix@.is_prefix_of(text@),
{
    let n = prefix.unicode_len();
    if n > text.unicode_len() {
        return false;
    }
    let head = text.substring_char(0, n);
    same_text(head, prefix)
}

/// `head` followed by `tail`.
pub fn join_text(head: &str, tail: &str) -> (joined: String)
    ensures
        joined@ == head@ + tail@,
{
    let mut joined: String = head.to_owned();
    joined.append(tail);
    joined
}


/// The set holds exactly the strings of the list.
pub open spec fn holds_texts(seen: Set<Seq<char>>, list: Seq<Seq<char>>) -> bool {
    forall|p: Seq<char>| seen.contains(p) <==> list.contains(p)
}

/// The strings of `items` as a set, for looking them up.
pub fn text_set(items: &Vec<String>) -> (seen: StringHashSet)
    ensures
        holds_texts(seen@, texts(items@)),
{
    let ghost all = texts(items@);
    let mut seen = StringHashSet::with_capacity(items.len());
    let mut i: usize = 0;
    while i < items.len()
        invariant
            i <= items.len(),
            all == texts(items@),
            holds_texts(seen@, all.take(i as int)),
        decreases items.len() - i,
    {
        let ghost before = seen@;
        seen.insert(items[i].clone());
        proof {
            let front = all.take(i as int);
            let next = all.take(i + 1);
            assert(next =~= front.push(all[i as int]));
            assert forall|p: Seq<char>| seen@.contains(p) <==> next.contains(p) by {
                if front.contains(p) {
                    let j = choose|j: int| 0 <= j < front.len() && front[j] == p;
                    assert(next[j] == p);
                }
                if next.contains(p) {
                    let j = choose|j: int| 0 <= j < next.len() && next[j] == p;
                    if j < i {
                        assert(front[j] == p);
                    }
                }
                assert(next[i as int] == all[i as int]);
            }
        }
        i += 1;
    }
    assert(all.take(items.len() as int) =~= all);
    seen
}

/// Add `item` to the list unless the list holds it, which the set tells;
/// whether it was added.
pub(crate) fn push_if_new(list: &mut Vec<String>, seen: &mut StringHashSet, item: &str) -> (pushed: bool)
    requires
        holds_texts(old(seen)@, texts(old(list)@)),
    ensures
        holds_texts(final(seen)@, texts(final(list)@)),
        pushed == !texts(old(list)@).contains(item@),
        texts(final(list)@) == if pushed {
            texts(old(list)@).push(item@)
        } else {
            texts(old(list)@)
        },
        final(list).len() == old(list).len() + if pushed {
            1int
        } else {
            0int
        },
{
    if seen.contains(item) {
        return false;
    }
    let ghost before = texts(list@);
    list.push(item.to_owned());
    seen.insert(item.to_owned());
    proof {
        let after = texts(list@);
        assert(after =~= before.push(item@));
        assert forall|p: Seq<char>| seen@.contains(p) <==> after.contains(p) by {
            if before.contains(p) {
                let j = choose|j: int| 0 <= j < before.len() && before[j] == p;
                assert(after[j] == p);
            }
            if after.contains(p) {
                let j = choose|j: int| 0 <= j < after.len() && after[j] == p;
                if j < before.len() {
                    assert(before[j] == p);
                }
            }
            assert(after[after.len() - 1] == item@);
        }
    }
    true
}

/// Add to `base` the strings of `more` that it does not hold yet, each once;
/// how many were added.
pub fn add_new_texts(base: &mut Vec<String>, more: &Vec<String>) -> (added: usize)
    ensures
        texts(final(base)@) == with_new(texts(old(base)@), texts(more@)),
        added == final(base).len() - old(base).len(),
        added <= more.len(),
{
    let ghost start = texts(base@);
    let ghost all = texts(more@);
    let mut seen = text_set(base);
    let mut added: usize = 0;
    let mut i: usize = 0;
    assert(all.take(0) =~= Seq::<Seq<char>>::empty());
    while i < more.len()
        invariant
            i <= more.len(),
            all == texts(more@),
            start.len() == old(base).len(),
            holds_texts(seen@, texts(base@)),
            texts(base@) == with_new(start, all.take(i as int)),
            added == base.len() - old(base).len(),
            added <= i,
        decreases more.len() - i,
    {
        proof {
            assert(all.take(i + 1).drop_last() =~= all.take(i as int));
            assert(all.take(i + 1).last() == more[i as int]@);
            lemma_with_new(start, all.take(i as int));
        }
        if push_if_new(base, &mut seen, more[i].as_str()) {
            added += 1;
        }
        i += 1;
    }
    assert(all.take(more.len() as int) =~= all);
    added
}

/// The strings of `items`, each once, in the order they come first.
pub fn distinct_texts(items: &Vec<String>) -> (once: Vec<String>)
    ensures
        texts(once@) == distinct(texts(items@)),
        texts(once@).no_duplicates(),
{
    let mut once: Vec<String> = Vec::new();
    assert(texts(once@) =~= Seq::<Seq<char>>::empty());
    add_new_texts(&mut once, items);
    proof {
        lemma_with_new(Seq::<Seq<char>>::empty(), texts(items@));
    }
    once
}

} // verus!
