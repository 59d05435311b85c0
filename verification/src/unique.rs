//! Keeping the first occurrence of each string: duplicates are removed and
//! the order in which strings first appear is kept.
use vstd::prelude::*;
use vstd::hash_set::StringHashSet;
use crate::text::views;

verus! {

/// `s` with every element after its first occurrence removed.
pub open spec fn first_occurrences<A>(s: Seq<A>) -> Seq<A>
    decreases s.len(),
{
    if s.len() == 0 {
        s
    } else {
        let prev = first_occurrences(s.drop_last());
        if prev.contains(s.last()) {
            prev
        } else {
            prev.push(s.last())
        }
    }
}

/// Keeping first occurrences gives a sequence without duplicates that holds
/// exactly the elements of `s`.
pub proof fn lemma_first_occurrences<A>(s: Seq<A>)
    ensures
        first_occurrences(s).no_duplicates(),
        forall|x: A| first_occurrences(s).contains(x) <==> s.contains(x),
    decreases s.len(),
{
    if s.len() > 0 {
        let prev = first_occurrences(s.drop_last());
        lemma_first_occurrences(s.drop_last());
        assert forall|x: A| first_occurrences(s).contains(x) <==> s.contains(x) by {
            if s.contains(x) && x != s.last() {
                let k: int = choose|k: int| 0 <= k < s.len() && s[k] == x;
                assert(s.drop_last()[k] == x);
            }
            if s.drop_last().contains(x) {
                let k: int = choose|k: int| 0 <= k < s.drop_last().len() && s.drop_last()[k] == x;
                assert(s[k] == x);
            }
            if !prev.contains(s.last()) {
                assert(prev.push(s.last())[prev.len() as int] == s.last());
                if prev.push(s.last()).contains(x) && x != s.last() {
                    let k: int = choose|k: int| 0 <= k < prev.len() + 1 && prev.push(s.last())[k] == x;
                    assert(prev[k] == x);
                }
                if prev.contains(x) {
                    let k: int = choose|k: int| 0 <= k < prev.len() && prev[k] == x;
                    assert(prev.push(s.last())[k] == x);
                }
            }
            assert(s[s.len() - 1] == s.last());
        }
    }
}

/// A sequence without duplicates is its own first occurrences.
pub proof fn lemma_first_occurrences_of_distinct<A>(s: Seq<A>)
    requires
        s.no_duplicates(),
    ensures
        first_occurrences(s) == s,
    decreases s.len(),
{
    if s.len() > 0 {
        let t = s.drop_last();
        assert(t.no_duplicates());
        lemma_first_occurrences_of_distinct(t);
        if t.contains(s.last()) {
            let k: int = choose|k: int| 0 <= k < t.len() && t[k] == s.last();
            assert(s[k] == s[s.len() - 1]);
        }
        assert(t.push(s.last()) =~= s);
    }
}

/// Keeping first occurrences twice keeps the same as once.
pub proof fn lemma_first_occurrences_idempotent<A>(s: Seq<A>)
    ensures
        first_occurrences(first_occurrences(s)) == first_occurrences(s),
{
    lemma_first_occurrences(s);
    lemma_first_occurrences_of_distinct(first_occurrences(s));
}

/// The set of strings in `views` holds exactly the elements of `seen`.
pub open spec fn tracks(seen: Set<Seq<char>>, kept: Seq<Seq<char>>) -> bool {
    forall|x: Seq<char>| seen.contains(x) <==> kept.contains(x)
}

/// Appends `item` to `kept` unless an equal string is there already; `seen`
/// holds the same strings as `kept`.
pub fn push_if_new(kept: &mut Vec<String>, seen: &mut StringHashSet, item: String)
    requires
        tracks(old(seen)@, views(old(kept)@)),
    ensures
        views(final(kept)@) == (if views(old(kept)@).contains(item@) {
            views(old(kept)@)
        } else {
            views(old(kept)@).push(item@)
        }),
        tracks(final(seen)@, views(final(kept)@)),
{
    if !seen.contains(item.as_str()) {
        let copy = item.clone();
        seen.insert(copy);
        let ghost before = kept@;
        kept.push(item);
        assert(views(kept@) =~= views(before).push(item@));
        assert forall|x: Seq<char>| seen@.contains(x) <==> views(kept@).contains(x) by {
            if views(before).contains(x) {
                let k: int = choose|k: int| 0 <= k < views(before).len() && views(before)[k] == x;
                assert(views(kept@)[k] == x);
            }
            if views(kept@).contains(x) && x != item@ {
                let k: int = choose|k: int| 0 <= k < views(kept@).len() && views(kept@)[k] == x;
                assert(k < views(before).len());
                assert(views(before)[k] == x);
            }
            assert(views(kept@)[views(before).len() as int] == item@);
        }
    }
}

/// The strings of `items`, each kept at its first occurrence.
pub fn unique_strings(items: &Vec<String>) -> (r: Vec<String>)
    ensures
        views(r@) == first_occurrences(views(items@)),
{
    let mut kept: Vec<String> = Vec::new();
    let mut seen = StringHashSet::new();
    assert(views(kept@) =~= first_occurrences(views(items@).take(0)));
    for i in 0..items.len()
        invariant
            views(kept@) == first_occurrences(views(items@).take(i as int)),
            tracks(seen@, views(kept@)),
    {
        let ghost prefix = views(items@).take(i as int);
        assert(views(items@).take(i + 1).drop_last() =~= prefix);
        assert(views(items@).take(i + 1).last() == items@[i as int]@);
        push_if_new(&mut kept, &mut seen, items[i].clone());
    }
    assert(views(items@).take(items@.len() as int) =~= views(items@));
    kept
}

} // verus!
