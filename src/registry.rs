//! The token registry: symbols with their ids and actions.

use vstd::prelude::*;

use crate::action::Action;

verus! {

/// A registered symbol with its internal id and its action.
#[derive(Clone, Copy, Debug, PartialEq, Eq, Structural)]
pub struct TokenEntry {
    pub symbol: char,
    pub id: usize,
    pub action: Action,
}

/// The entry that `c` resolves to: the latest one registered for it.
pub open spec fn lookup(entries: Seq<TokenEntry>, c: char) -> Option<TokenEntry>
    decreases entries.len(),
{
    if entries.len() == 0 {
        None
    } else if entries.last().symbol == c {
        Some(entries.last())
    } else {
        lookup(entries.drop_last(), c)
    }
}

/// The entries of every symbol but `c`, in their order.
pub open spec fn without(entries: Seq<TokenEntry>, c: char) -> Seq<TokenEntry>
    decreases entries.len(),
{
    if entries.len() == 0 {
        entries
    } else if entries.last().symbol == c {
        without(entries.drop_last(), c)
    } else {
        without(entries.drop_last(), c).push(entries.last())
    }
}

/// Dropping the entries of `c` unregisters `c` and no other symbol.
pub proof fn lemma_lookup_without(entries: Seq<TokenEntry>, c: char, d: char)
    ensures
        lookup(without(entries, c), d) == if d == c { None } else { lookup(entries, d) },
    decreases entries.len(),
{
    if entries.len() > 0 {
        lemma_lookup_without(entries.drop_last(), c, d);
        let w = without(entries.drop_last(), c);
        assert(w.push(entries.last()).drop_last() == w);
    }
}

/// Dropping the entries of a symbol that has none changes nothing.
pub proof fn lemma_without_absent(entries: Seq<TokenEntry>, c: char)
    requires
        lookup(entries, c) is None,
    ensures
        without(entries, c) == entries,
    decreases entries.len(),
{
    if entries.len() > 0 {
        lemma_without_absent(entries.drop_last(), c);
        assert(entries.drop_last().push(entries.last()) == entries);
    }
}

/// Every entry of `without(entries, c)` is one of `entries`.
pub proof fn lemma_without_subset(entries: Seq<TokenEntry>, c: char, i: int)
    requires
        0 <= i < without(entries, c).len(),
    ensures
        entries.contains(without(entries, c)[i]),
    decreases entries.len(),
{
    if entries.len() > 0 {
        let p = entries.drop_last();
        let w = without(p, c);
        if i < w.len() {
            lemma_without_subset(p, c, i);
            let j = choose|j: int| 0 <= j < p.len() && p[j] == w[i];
            assert(entries[j] == w[i]);
        } else {
            assert(entries[entries.len() - 1] == entries.last());
        }
    }
}

/// The entry that `c` resolves to is one of `entries`.
pub proof fn lemma_lookup_member(entries: Seq<TokenEntry>, c: char)
    ensures
        lookup(entries, c) matches Some(e) ==> entries.contains(e) && e.symbol == c,
    decreases entries.len(),
{
    if entries.len() > 0 {
        lemma_lookup_member(entries.drop_last(), c);
        if entries.last().symbol != c {
            if let Some(e) = lookup(entries.drop_last(), c) {
                let j = choose|j: int| 0 <= j < entries.len() - 1 && entries.drop_last()[j] == e;
                assert(entries[j] == e);
            }
        } else {
            assert(entries[entries.len() - 1] == entries.last());
        }
    }
}

/// The entry that `id` was registered under, if it is still registered.
pub open spec fn entry_of_id(entries: Seq<TokenEntry>, id: usize) -> Option<TokenEntry>
    decreases entries.len(),
{
    if entries.len() == 0 {
        None
    } else if entries.last().id == id {
        Some(entries.last())
    } else {
        entry_of_id(entries.drop_last(), id)
    }
}

/// No two entries share a symbol or an id.
pub open spec fn distinct_entries(entries: Seq<TokenEntry>) -> bool {
    forall|i: int, j: int|
        0 <= i < j < entries.len() ==> (#[trigger] entries[i]).symbol != (
        #[trigger] entries[j]).symbol && entries[i].id != entries[j].id
}

/// Dropping the entries of `c` keeps the entries distinct and leaves none of `c`.
pub proof fn lemma_without_distinct(entries: Seq<TokenEntry>, c: char)
    requires
        distinct_entries(entries),
    ensures
        distinct_entries(without(entries, c)),
        forall|i: int|
            0 <= i < without(entries, c).len() ==> (#[trigger] without(entries, c)[i]).symbol
                != c,
    decreases entries.len(),
{
    if entries.len() > 0 {
        let p = entries.drop_last();
        assert(distinct_entries(p)) by {
            assert forall|i: int, j: int| 0 <= i < j < p.len() implies (#[trigger] p[i]).symbol != (
            #[trigger] p[j]).symbol && p[i].id != p[j].id by {
                assert(p[i] == entries[i] && p[j] == entries[j]);
            }
        }
        lemma_without_distinct(p, c);
        let w = without(p, c);
        let last = entries.last();
        if last.symbol != c {
            let w2 = w.push(last);
            assert forall|i: int| 0 <= i < w.len() implies (#[trigger] w[i]).symbol != last.symbol
                && w[i].id != last.id by {
                lemma_without_subset(p, c, i);
                let k = choose|k: int| 0 <= k < p.len() && p[k] == w[i];
                assert(entries[k] == p[k]);
                assert(entries[entries.len() - 1] == last);
            }
            assert forall|i: int, j: int| 0 <= i < j < w2.len() implies (#[trigger] w2[i]).symbol
                != (#[trigger] w2[j]).symbol && w2[i].id != w2[j].id by {
                if j < w.len() {
                    assert(w2[i] == w[i] && w2[j] == w[j]);
                } else {
                    assert(w2[i] == w[i] && w2[j] == last);
                }
            }
            assert forall|i: int| 0 <= i < w2.len() implies (#[trigger] w2[i]).symbol != c by {
                if i < w.len() {
                    assert(w2[i] == w[i]);
                }
            }
        }
    }
}

/// Among distinct entries, the entry a symbol resolves to is the one its id
/// resolves to.
pub proof fn lemma_lookup_by_id(entries: Seq<TokenEntry>, c: char)
    requires
        distinct_entries(entries),
    ensures
        lookup(entries, c) matches Some(e) ==> entry_of_id(entries, e.id) == Some(e),
    decreases entries.len(),
{
    if entries.len() > 0 {
        let p = entries.drop_last();
        assert(distinct_entries(p)) by {
            assert forall|i: int, j: int| 0 <= i < j < p.len() implies (#[trigger] p[i]).symbol != (
            #[trigger] p[j]).symbol && p[i].id != p[j].id by {
                assert(p[i] == entries[i] && p[j] == entries[j]);
            }
        }
        lemma_lookup_by_id(p, c);
        lemma_lookup_member(p, c);
        if entries.last().symbol != c {
            if let Some(e) = lookup(p, c) {
                let k = choose|k: int| 0 <= k < p.len() && p[k] == e;
                assert(entries[k] == e);
                assert(entries[entries.len() - 1] == entries.last());
            }
        }
    }
}

/// Among distinct entries, the entry an id resolves to is the one its symbol
/// resolves to.
pub proof fn lemma_id_by_lookup(entries: Seq<TokenEntry>, id: usize)
    requires
        distinct_entries(entries),
    ensures
        entry_of_id(entries, id) matches Some(e) ==> lookup(entries, e.symbol) == Some(e),
    decreases entries.len(),
{
    if entries.len() > 0 {
        let p = entries.drop_last();
        assert(distinct_entries(p)) by {
            assert forall|i: int, j: int| 0 <= i < j < p.len() implies (#[trigger] p[i]).symbol != (
            #[trigger] p[j]).symbol && p[i].id != p[j].id by {
                assert(p[i] == entries[i] && p[j] == entries[j]);
            }
        }
        lemma_id_by_lookup(p, id);
        lemma_entry_of_id_member(p, id);
        if entries.last().id != id {
            if let Some(e) = entry_of_id(p, id) {
                let k = choose|k: int| 0 <= k < p.len() && p[k] == e;
                assert(entries[k] == e);
                assert(entries[entries.len() - 1] == entries.last());
            }
        }
    }
}

/// The entry an id resolves to is one of `entries`.
pub proof fn lemma_entry_of_id_member(entries: Seq<TokenEntry>, id: usize)
    ensures
        entry_of_id(entries, id) matches Some(e) ==> entries.contains(e) && e.id == id,
    decreases entries.len(),
{
    if entries.len() > 0 {
        lemma_entry_of_id_member(entries.drop_last(), id);
        if entries.last().id != id {
            if let Some(e) = entry_of_id(entries.drop_last(), id) {
                let j = choose|j: int| 0 <= j < entries.len() - 1 && entries.drop_last()[j] == e;
                assert(entries[j] == e);
            }
        } else {
            assert(entries[entries.len() - 1] == entries.last());
        }
    }
}

/// Looks `c` up among `entries`.
pub fn find_token(entries: &Vec<TokenEntry>, c: char) -> (r: Option<TokenEntry>)
    ensures
        r == lookup(entries@, c),
{
    let mut i: usize = entries.len();
    proof {
        assert(entries@.take(i as int) == entries@);
    }
    while i > 0
        invariant
            i <= entries@.len(),
            lookup(entries@, c) == lookup(entries@.take(i as int), c),
        decreases i,
    {
        let e = entries[i - 1];
        proof {
            assert(entries@.take(i as int).drop_last() == entries@.take(i - 1));
        }
        if e.symbol == c {
            return Some(e);
        }
        i = i - 1;
    }
    proof {
        assert(entries@.take(0) == Seq::<TokenEntry>::empty());
    }
    None
}

/// Splits `entries` into those of symbols other than `c`, and the entry that
/// `c` resolved to.
pub fn take_token(entries: &Vec<TokenEntry>, c: char) -> (r: (Vec<TokenEntry>, Option<TokenEntry>))
    ensures
        r.0@ == without(entries@, c),
        r.1 == lookup(entries@, c),
{
    let mut kept: Vec<TokenEntry> = Vec::new();
    let mut found: Option<TokenEntry> = None;
    let mut i: usize = 0;
    while i < entries.len()
        invariant
            i <= entries@.len(),
            kept@ == without(entries@.take(i as int), c),
            found == lookup(entries@.take(i as int), c),
        decreases entries@.len() - i,
    {
        let e = entries[i];
        proof {
            assert(entries@.take(i + 1).drop_last() == entries@.take(i as int));
        }
        if e.symbol == c {
            found = Some(e);
        } else {
            kept.push(e);
        }
        i = i + 1;
    }
    proof {
        assert(entries@.take(i as int) == entries@);
    }
    (kept, found)
}

} // verus!
