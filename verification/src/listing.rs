//! Which pairs the listings of a table hold.

use crate::entities::lemma_filter_holds;
use crate::list_map::{
    distinct_keys, has_key, lemma_place_is_position, lemma_position, lookup, position,
};
use crate::model::{
    certificate_missing_from, certificates_only_in, holds, listed_under_owner, listing,
    listing_once, missing_from, once, only_in, under, CertificateTable, Table,
};
use vstd::prelude::*;

verus! {

/// Whether some entry of `table` has the key `key` and lists `item`.
pub open spec fn lists<E>(table: Table<E>, key: Seq<char>, item: E) -> bool {
    exists|i: int|
        0 <= i < table.len() && (#[trigger] table[i]).0 == key && table[i].1.contains(item)
}

/// A concatenation holds what either part holds.
pub proof fn lemma_concat_contains<A>(first: Seq<A>, second: Seq<A>, item: A)
    ensures
        (first + second).contains(item) == (first.contains(item) || second.contains(item)),
{
    let both = first + second;
    if both.contains(item) {
        let i = choose|i: int| 0 <= i < both.len() && both[i] == item;
        if i < first.len() {
            assert(first[i] == item);
        } else {
            assert(second[i - first.len()] == item);
        }
    }
    if first.contains(item) {
        let i = choose|i: int| 0 <= i < first.len() && first[i] == item;
        assert(both[i] == item);
    }
    if second.contains(item) {
        let i = choose|i: int| 0 <= i < second.len() && second[i] == item;
        assert(both[first.len() + i] == item);
    }
}

/// A sequence without its last item holds what the sequence holds, but
/// perhaps the last item.
pub proof fn lemma_drop_last_contains<A>(items: Seq<A>, item: A)
    requires
        items.len() > 0,
    ensures
        items.contains(item) == (items.drop_last().contains(item) || items.last() == item),
{
    let front = items.drop_last();
    if items.contains(item) {
        let i = choose|i: int| 0 <= i < items.len() && items[i] == item;
        if i < items.len() - 1 {
            assert(front[i] == item);
        }
    }
    if front.contains(item) {
        let i = choose|i: int| 0 <= i < front.len() && front[i] == item;
        assert(items[i] == item);
    }
    assert(items[items.len() - 1] == items.last());
}

/// The items paired with a key are the pairs of that key with the items.
pub proof fn lemma_under_contains<E>(key: Seq<char>, items: Seq<E>, pair: (Seq<char>, E))
    ensures
        under(key, items).contains(pair) == (pair.0 == key && items.contains(pair.1)),
{
    let paired = under(key, items);
    if paired.contains(pair) {
        let i = choose|i: int| 0 <= i < paired.len() && paired[i] == pair;
        assert(items[i] == pair.1);
    }
    if pair.0 == key && items.contains(pair.1) {
        let i = choose|i: int| 0 <= i < items.len() && items[i] == pair.1;
        assert(paired[i] == pair);
    }
}

/// Taking each item once loses no item and brings none.
pub proof fn lemma_once_contains<E>(items: Seq<E>, item: E)
    ensures
        once(items).contains(item) == items.contains(item),
    decreases items.len(),
{
    if items.len() > 0 {
        let front = items.drop_last();
        lemma_once_contains(front, item);
        lemma_drop_last_contains(items, item);
        if !front.contains(items.last()) {
            let taken = once(front).push(items.last());
            lemma_drop_last_contains(taken, item);
            assert(taken.drop_last() =~= once(front));
        }
    }
}

/// What a table lists without its last entry, and with it.
proof fn lemma_lists_drop_last<E>(table: Table<E>, key: Seq<char>, item: E)
    requires
        table.len() > 0,
    ensures
        lists(table, key, item) == (lists(table.drop_last(), key, item) || (table.last().0 == key
            && table.last().1.contains(item))),
{
    let front = table.drop_last();
    if lists(table, key, item) {
        let i = choose|i: int|
            0 <= i < table.len() && (#[trigger] table[i]).0 == key && table[i].1.contains(item);
        if i < table.len() - 1 {
            assert(front[i] == table[i]);
        }
    }
    if lists(front, key, item) {
        let i = choose|i: int|
            0 <= i < front.len() && (#[trigger] front[i]).0 == key && front[i].1.contains(item);
        assert(table[i] == front[i]);
    }
    assert(table[table.len() - 1] == table.last());
}

/// The listing of a table holds the pairs that the table lists.
pub proof fn lemma_listing_contains<E>(table: Table<E>, pair: (Seq<char>, E))
    ensures
        listing(table).contains(pair) == lists(table, pair.0, pair.1),
    decreases table.len(),
{
    if table.len() > 0 {
        let front = table.drop_last();
        lemma_listing_contains(front, pair);
        lemma_concat_contains(listing(front), under(table.last().0, table.last().1), pair);
        lemma_under_contains(table.last().0, table.last().1, pair);
        lemma_lists_drop_last(table, pair.0, pair.1);
    }
}

/// The listing without repetitions holds the pairs that the table lists.
pub proof fn lemma_listing_once_contains<E>(table: Table<E>, pair: (Seq<char>, E))
    ensures
        listing_once(table).contains(pair) == lists(table, pair.0, pair.1),
    decreases table.len(),
{
    if table.len() > 0 {
        let front = table.drop_last();
        lemma_listing_once_contains(front, pair);
        lemma_concat_contains(
            listing_once(front),
            under(table.last().0, once(table.last().1)),
            pair,
        );
        lemma_under_contains(table.last().0, once(table.last().1), pair);
        lemma_once_contains(table.last().1, pair.1);
        lemma_lists_drop_last(table, pair.0, pair.1);
    }
}

/// Where no application has two entries, a table lists what it holds.
pub proof fn lemma_lists_what_it_holds<E>(table: Table<E>, key: Seq<char>, item: E)
    requires
        distinct_keys(table),
    ensures
        lists(table, key, item) == holds(table, key, item),
{
    if lists(table, key, item) {
        let i = choose|i: int|
            0 <= i < table.len() && (#[trigger] table[i]).0 == key && table[i].1.contains(item);
        lemma_place_is_position(table, i);
    }
    if holds(table, key, item) {
        lemma_position(table, key);
        assert(table[position(table, key)].0 == key);
    }
}

/// The pairs only in `listed` are those that `listed` holds and `other`
/// does not.
pub proof fn lemma_only_in_contains<E>(listed: Table<E>, other: Table<E>, pair: (Seq<char>, E))
    requires
        distinct_keys(listed),
    ensures
        only_in(listed, other).contains(pair) == (holds(listed, pair.0, pair.1) && !holds(
            other,
            pair.0,
            pair.1,
        )),
{
    lemma_filter_holds(listing_once(listed), missing_from(other), pair);
    lemma_listing_once_contains(listed, pair);
    lemma_lists_what_it_holds(listed, pair.0, pair.1);
}

/// Where every item is listed under its owner, what the table holds for an
/// application belongs to that application.
pub proof fn lemma_held_under_owner<E>(
    table: Table<E>,
    owner: spec_fn(E) -> Seq<char>,
    key: Seq<char>,
    item: E,
)
    requires
        listed_under_owner(table, owner),
        holds(table, key, item),
    ensures
        owner(item) == key,
{
    lemma_position(table, key);
    let i = position(table, key);
    let j = choose|j: int| 0 <= j < table[i].1.len() && table[i].1[j] == item;
    assert(owner(table[i].1[j]) == table[i].0);
}

/// Where no fingerprint has two entries, a list holds the entries that a
/// lookup finds.
pub proof fn lemma_contains_what_lookup_finds<K, V>(entries: Seq<(K, V)>, entry: (K, V))
    requires
        distinct_keys(entries),
    ensures
        entries.contains(entry) == (lookup(entries, entry.0) == Some(entry.1)),
{
    if entries.contains(entry) {
        let i = choose|i: int| 0 <= i < entries.len() && entries[i] == entry;
        lemma_place_is_position(entries, i);
    }
    if lookup(entries, entry.0) == Some(entry.1) {
        lemma_position(entries, entry.0);
        assert(entries[position(entries, entry.0)] == entry);
    }
}

/// The certificates only in `listed`: a fingerprint is among them where
/// `listed` holds it and `other` holds it not, or with another certificate;
/// it then has the certificate that `listed` has for it.
pub proof fn lemma_certificates_only_in(
    listed: CertificateTable,
    other: CertificateTable,
    print: Seq<u8>,
)
    requires
        distinct_keys(listed),
    ensures
        has_key(certificates_only_in(listed, other), print) == (has_key(listed, print) && lookup(
            other,
            print,
        ) != lookup(listed, print)),
        has_key(certificates_only_in(listed, other), print) ==> lookup(
            certificates_only_in(listed, other),
            print,
        ) == lookup(listed, print),
{
    let only = certificates_only_in(listed, other);
    let missing = certificate_missing_from(other);
    if has_key(only, print) {
        lemma_position(only, print);
        let entry = only[position(only, print)];
        assert(only.contains(entry));
        lemma_filter_holds(listed, missing, entry);
        lemma_contains_what_lookup_finds(listed, entry);
    }
    if has_key(listed, print) && lookup(other, print) != lookup(listed, print) {
        lemma_position(listed, print);
        let entry = listed[position(listed, print)];
        assert(listed.contains(entry));
        lemma_filter_holds(listed, missing, entry);
        let i = choose|i: int| 0 <= i < only.len() && only[i] == entry;
        assert(only[i].0 == print);
    }
}

} // verus!
