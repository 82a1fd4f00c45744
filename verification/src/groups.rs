//! What a run of orders of one kind does to the entities.

use crate::entities::{lemma_put_as_map, run};
use crate::list_map::{as_map, has_key, lemma_first_is_position, lemma_position, position, put};
use crate::listing::lemma_drop_last_contains;
use crate::messages::{HttpFrontView, HttpsFrontView, InstanceView};
use crate::model::{
    add_certificate, add_http_front, add_https_front, add_instance, fingerprint_of,
    http_front_owner, http_front_under, https_front_owner, https_front_under, instance_owner,
    remove_certificate, remove_http_front, remove_https_front, remove_instance, CertificateTable,
    Entities,
};
use vstd::prelude::*;

verus! {

/// Whether every pair of `pairs` joins an entity with its owner.
pub open spec fn each_with_owner<E>(
    pairs: Seq<(Seq<char>, E)>,
    owner: spec_fn(E) -> Seq<char>,
) -> bool {
    forall|i: int| 0 <= i < pairs.len() ==> owner((#[trigger] pairs[i]).1) == pairs[i].0
}

/// Whether every pair that `held` holds joins an entity with its owner.
pub open spec fn all_with_owner<E>(
    held: Set<(Seq<char>, E)>,
    owner: spec_fn(E) -> Seq<char>,
) -> bool {
    forall|pair: (Seq<char>, E)| #[trigger] held.contains(pair) ==> owner(pair.1) == pair.0
}

/// The pairs of `held` whose application has no pair in `gone`.
pub open spec fn pairs_of_none_of<E>(held: Set<(Seq<char>, E)>, gone: Seq<(Seq<char>, E)>) -> Set<
    (Seq<char>, E),
> {
    Set::new(|pair: (Seq<char>, E)| held.contains(pair) && !has_key(gone, pair.0))
}

/// The keys of `entries`.
pub open spec fn keys_of<K, V>(entries: Seq<(K, V)>) -> Set<K> {
    Set::new(|key: K| has_key(entries, key))
}

/// The image of a sequence without its last item.
proof fn lemma_map_drop_last<A, B>(items: Seq<A>, image: spec_fn(A) -> B)
    requires
        items.len() > 0,
    ensures
        items.map_values(image).drop_last() == items.drop_last().map_values(image),
        items.map_values(image).last() == image(items.last()),
{
    assert(items.map_values(image).drop_last() =~= items.drop_last().map_values(image));
}

/// The set of a sequence is the set of its front with its last item.
proof fn lemma_to_set_last<A>(items: Seq<A>)
    requires
        items.len() > 0,
    ensures
        items.to_set() == items.drop_last().to_set().insert(items.last()),
{
    assert forall|item: A|
        items.to_set().contains(item) == #[trigger] items.drop_last().to_set().insert(
            items.last(),
        ).contains(item) by {
        lemma_drop_last_contains(items, item);
    }
    assert(items.to_set() =~= items.drop_last().to_set().insert(items.last()));
}

/// The keys of a sequence are the keys of its front and the key of its last
/// entry.
proof fn lemma_has_key_last<K, V>(entries: Seq<(K, V)>, key: K)
    requires
        entries.len() > 0,
    ensures
        has_key(entries, key) == (has_key(entries.drop_last(), key) || entries.last().0 == key),
{
    let front = entries.drop_last();
    if has_key(entries, key) {
        let i = choose|i: int| 0 <= i < entries.len() && (#[trigger] entries[i]).0 == key;
        if i < entries.len() - 1 {
            assert(front[i].0 == key);
        }
    }
    if has_key(front, key) {
        let i = choose|i: int| 0 <= i < front.len() && (#[trigger] front[i]).0 == key;
        assert(entries[i].0 == key);
    }
    assert(entries[entries.len() - 1] == entries.last());
}

/// A run of additions of instances brings the pairs added.
pub proof fn lemma_run_add_instances(held: Entities, added: Seq<(Seq<char>, InstanceView)>)
    requires
        each_with_owner(added, instance_owner()),
    ensures
        run(held, added.map_values(add_instance())) == (Entities {
            instances: held.instances.union(added.to_set()),
            ..held
        }),
    decreases added.len(),
{
    let after = Entities { instances: held.instances.union(added.to_set()), ..held };
    if added.len() == 0 {
        assert(after.instances =~= held.instances);
    } else {
        let front = added.drop_last();
        lemma_map_drop_last(added, add_instance());
        lemma_run_add_instances(held, front);
        lemma_to_set_last(added);
        assert(added[added.len() - 1] == added.last());
        assert(run(held, added.map_values(add_instance())).instances =~= after.instances);
    }
}

/// A run of additions of HTTP fronts brings the pairs added.
pub proof fn lemma_run_add_http_fronts(held: Entities, added: Seq<(Seq<char>, HttpFrontView)>)
    requires
        each_with_owner(added, http_front_owner()),
    ensures
        run(held, added.map_values(add_http_front())) == (Entities {
            http_fronts: held.http_fronts.union(added.to_set()),
            ..held
        }),
    decreases added.len(),
{
    let after = Entities { http_fronts: held.http_fronts.union(added.to_set()), ..held };
    if added.len() == 0 {
        assert(after.http_fronts =~= held.http_fronts);
    } else {
        let front = added.drop_last();
        lemma_map_drop_last(added, add_http_front());
        lemma_run_add_http_fronts(held, front);
        lemma_to_set_last(added);
        assert(added[added.len() - 1] == added.last());
        assert(http_front_under(added.last().0, added.last().1) == added.last().1);
        assert(run(held, added.map_values(add_http_front())).http_fronts =~= after.http_fronts);
    }
}

/// A run of additions of HTTPS fronts brings the pairs added.
pub proof fn lemma_run_add_https_fronts(held: Entities, added: Seq<(Seq<char>, HttpsFrontView)>)
    requires
        each_with_owner(added, https_front_owner()),
    ensures
        run(held, added.map_values(add_https_front())) == (Entities {
            https_fronts: held.https_fronts.union(added.to_set()),
            ..held
        }),
    decreases added.len(),
{
    let after = Entities { https_fronts: held.https_fronts.union(added.to_set()), ..held };
    if added.len() == 0 {
        assert(after.https_fronts =~= held.https_fronts);
    } else {
        let front = added.drop_last();
        lemma_map_drop_last(added, add_https_front());
        lemma_run_add_https_fronts(held, front);
        lemma_to_set_last(added);
        assert(added[added.len() - 1] == added.last());
        assert(https_front_under(added.last().0, added.last().1) == added.last().1);
        assert(run(held, added.map_values(add_https_front())).https_fronts
            =~= after.https_fronts);
    }
}

/// A run of removals of instances takes the pairs removed, and no other.
pub proof fn lemma_run_remove_instances(held: Entities, gone: Seq<(Seq<char>, InstanceView)>)
    requires
        each_with_owner(gone, instance_owner()),
        all_with_owner(held.instances, instance_owner()),
    ensures
        run(held, gone.map_values(remove_instance())) == (Entities {
            instances: held.instances.difference(gone.to_set()),
            ..held
        }),
    decreases gone.len(),
{
    let after = Entities { instances: held.instances.difference(gone.to_set()), ..held };
    if gone.len() == 0 {
        assert(after.instances =~= held.instances);
    } else {
        let front = gone.drop_last();
        lemma_map_drop_last(gone, remove_instance());
        lemma_run_remove_instances(held, front);
        lemma_to_set_last(gone);
        assert(gone[gone.len() - 1] == gone.last());
        assert(run(held, gone.map_values(remove_instance())).instances =~= after.instances);
    }
}

/// A run of removals of HTTP fronts takes the pairs removed, and no other.
pub proof fn lemma_run_remove_http_fronts(held: Entities, gone: Seq<(Seq<char>, HttpFrontView)>)
    requires
        each_with_owner(gone, http_front_owner()),
        all_with_owner(held.http_fronts, http_front_owner()),
    ensures
        run(held, gone.map_values(remove_http_front())) == (Entities {
            http_fronts: held.http_fronts.difference(gone.to_set()),
            ..held
        }),
    decreases gone.len(),
{
    let after = Entities { http_fronts: held.http_fronts.difference(gone.to_set()), ..held };
    if gone.len() == 0 {
        assert(after.http_fronts =~= held.http_fronts);
    } else {
        let front = gone.drop_last();
        lemma_map_drop_last(gone, remove_http_front());
        lemma_run_remove_http_fronts(held, front);
        lemma_to_set_last(gone);
        assert(gone[gone.len() - 1] == gone.last());
        assert(http_front_under(gone.last().0, gone.last().1) == gone.last().1);
        assert(run(held, gone.map_values(remove_http_front())).http_fronts
            =~= after.http_fronts);
    }
}

/// A run of removals of HTTPS fronts takes every pair of an application
/// that has a pair among those removed.
pub proof fn lemma_run_remove_https_fronts(held: Entities, gone: Seq<(Seq<char>, HttpsFrontView)>)
    ensures
        run(held, gone.map_values(remove_https_front())) == (Entities {
            https_fronts: pairs_of_none_of(held.https_fronts, gone),
            ..held
        }),
    decreases gone.len(),
{
    let after = Entities { https_fronts: pairs_of_none_of(held.https_fronts, gone), ..held };
    if gone.len() == 0 {
        assert(after.https_fronts =~= held.https_fronts);
    } else {
        let front = gone.drop_last();
        lemma_map_drop_last(gone, remove_https_front());
        lemma_run_remove_https_fronts(held, front);
        assert forall|pair: (Seq<char>, HttpsFrontView)|
            run(held, gone.map_values(remove_https_front())).https_fronts.contains(pair)
                == #[trigger] after.https_fronts.contains(pair) by {
            lemma_has_key_last(gone, pair.0);
        }
        assert(run(held, gone.map_values(remove_https_front())).https_fronts
            =~= after.https_fronts);
    }
}

/// A last entry whose key came before changes nothing in the map.
proof fn lemma_shadowed_last<K, V>(entries: Seq<(K, V)>)
    requires
        entries.len() > 0,
        has_key(entries.drop_last(), entries.last().0),
    ensures
        as_map(entries) == as_map(entries.drop_last()),
{
    let front = entries.drop_last();
    assert forall|key: K|
        has_key(entries, key) == has_key(front, key) && (has_key(front, key) ==> position(
            entries,
            key,
        ) == position(front, key)) by {
        lemma_has_key_last(entries, key);
        if has_key(front, key) {
            lemma_position(front, key);
            let place = position(front, key);
            assert(entries[place] == front[place]);
            assert forall|j: int| 0 <= j < place implies (#[trigger] entries[j]).0 != key by {
                assert(entries[j] == front[j]);
            }
            lemma_first_is_position(entries, key, place);
        }
    }
    assert forall|key: K| has_key(front, key) implies #[trigger] as_map(entries)[key] == as_map(
        front,
    )[key] by {
        lemma_position(front, key);
        assert(entries[position(front, key)] == front[position(front, key)]);
    }
    assert(as_map(entries) =~= as_map(front));
}

/// A run of additions of certificates brings the certificates added, but
/// leaves each fingerprint that was taken to the certificate that had it.
pub proof fn lemma_run_add_certificates(held: Entities, added: CertificateTable)
    requires
        forall|i: int|
            0 <= i < added.len() ==> fingerprint_of((#[trigger] added[i]).1) == Some(added[i].0),
    ensures
        run(held, added.map_values(add_certificate())) == (Entities {
            certificates: as_map(added).union_prefer_right(held.certificates),
            ..held
        }),
    decreases added.len(),
{
    let after = Entities {
        certificates: as_map(added).union_prefer_right(held.certificates),
        ..held
    };
    if added.len() == 0 {
        assert(after.certificates =~= held.certificates);
    } else {
        let front = added.drop_last();
        let last = added.last();
        lemma_map_drop_last(added, add_certificate());
        assert forall|i: int| 0 <= i < front.len() implies fingerprint_of(
            (#[trigger] front[i]).1,
        ) == Some(front[i].0) by {
            assert(front[i] == added[i]);
        }
        lemma_run_add_certificates(held, front);
        assert(added[added.len() - 1] == last);
        if has_key(front, last.0) {
            lemma_shadowed_last(added);
        } else {
            assert(added =~= put(front, last.0, last.1));
            lemma_put_as_map(front, last.0, last.1);
        }
        assert(run(held, added.map_values(add_certificate())).certificates
            =~= after.certificates);
    }
}

/// A run of removals of certificates takes the fingerprints removed.
pub proof fn lemma_run_remove_certificates(held: Entities, gone: CertificateTable)
    ensures
        run(held, gone.map_values(remove_certificate())) == (Entities {
            certificates: held.certificates.remove_keys(keys_of(gone)),
            ..held
        }),
    decreases gone.len(),
{
    let after = Entities { certificates: held.certificates.remove_keys(keys_of(gone)), ..held };
    if gone.len() == 0 {
        assert(after.certificates =~= held.certificates);
    } else {
        let front = gone.drop_last();
        lemma_map_drop_last(gone, remove_certificate());
        lemma_run_remove_certificates(held, front);
        assert forall|print: Seq<u8>|
            has_key(gone, print) == (has_key(front, print) || gone.last().0 == print) by {
            lemma_has_key_last(gone, print);
        }
        assert(run(held, gone.map_values(remove_certificate())).certificates
            =~= after.certificates);
    }
}

} // verus!
