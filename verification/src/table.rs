//! The entities kept per application: how a list takes a new item, and how
//! the orders that announce or withdraw the items of a table are written.

use crate::list_map::{lemma_position, ListMap};
use crate::messages::{HttpFront, HttpsFront, Instance, Order, OrderView};
use crate::model::{
    add_http_front, add_https_front, add_instance, holds, listing, listing_once, missing_from,
    once, only_in, other_http_front, other_instance, remove_http_front, remove_https_front,
    remove_instance, under, with_item, with_kept,
};
use crate::value::Value;
use vstd::prelude::*;

verus! {

/// An entity that is kept per application, and that orders announce to a
/// proxy and withdraw from it.
pub trait Routed: Value {
    /// The order that announces an entity listed under an application.
    spec fn announcement() -> spec_fn((Seq<char>, <Self as DeepView>::V)) -> OrderView;

    /// The order that withdraws an entity listed under an application.
    spec fn withdrawal() -> spec_fn((Seq<char>, <Self as DeepView>::V)) -> OrderView;

    /// Writes the order that announces `item`, listed under `key`.
    fn announce(key: &String, item: &Self) -> (order: Order)
        ensures
            order.deep_view() == Self::announcement()((key@, item.deep_view())),
    ;

    /// Writes the order that withdraws `item`, listed under `key`.
    fn withdraw(key: &String, item: &Self) -> (order: Order)
        ensures
            order.deep_view() == Self::withdrawal()((key@, item.deep_view())),
    ;
}

impl Routed for HttpFront {
    open spec fn announcement() -> spec_fn((Seq<char>, <Self as DeepView>::V)) -> OrderView {
        add_http_front()
    }

    open spec fn withdrawal() -> spec_fn((Seq<char>, <Self as DeepView>::V)) -> OrderView {
        remove_http_front()
    }

    fn announce(key: &String, item: &Self) -> (order: Order) {
        Order::AddHttpFront(
            HttpFront {
                app_id: key.duplicate(),
                hostname: item.hostname.duplicate(),
                path_begin: item.path_begin.duplicate(),
            },
        )
    }

    fn withdraw(key: &String, item: &Self) -> (order: Order) {
        Order::RemoveHttpFront(
            HttpFront {
                app_id: key.duplicate(),
                hostname: item.hostname.duplicate(),
                path_begin: item.path_begin.duplicate(),
            },
        )
    }
}

impl Routed for HttpsFront {
    open spec fn announcement() -> spec_fn((Seq<char>, <Self as DeepView>::V)) -> OrderView {
        add_https_front()
    }

    open spec fn withdrawal() -> spec_fn((Seq<char>, <Self as DeepView>::V)) -> OrderView {
        remove_https_front()
    }

    fn announce(key: &String, item: &Self) -> (order: Order) {
        Order::AddHttpsFront(
            HttpsFront {
                app_id: key.duplicate(),
                hostname: item.hostname.duplicate(),
                path_begin: item.path_begin.duplicate(),
                fingerprint: item.fingerprint.duplicate(),
            },
        )
    }

    fn withdraw(key: &String, item: &Self) -> (order: Order) {
        Order::RemoveHttpsFront(
            HttpsFront {
                app_id: key.duplicate(),
                hostname: item.hostname.duplicate(),
                path_begin: item.path_begin.duplicate(),
                fingerprint: item.fingerprint.duplicate(),
            },
        )
    }
}

impl Routed for Instance {
    open spec fn announcement() -> spec_fn((Seq<char>, <Self as DeepView>::V)) -> OrderView {
        add_instance()
    }

    open spec fn withdrawal() -> spec_fn((Seq<char>, <Self as DeepView>::V)) -> OrderView {
        remove_instance()
    }

    fn announce(key: &String, item: &Self) -> (order: Order) {
        Order::AddInstance(item.duplicate())
    }

    fn withdraw(key: &String, item: &Self) -> (order: Order) {
        Order::RemoveInstance(item.duplicate())
    }
}

/// An entity that a removal names by some of its parts: the removal takes
/// every entity of the list with those parts.
pub trait Named: Value {
    /// Accepts the entities that a removal of `target` leaves.
    spec fn left_by(target: <Self as DeepView>::V) -> spec_fn(<Self as DeepView>::V) -> bool;

    /// Whether a removal of `target` leaves this entity.
    fn is_left_by(&self, target: &Self) -> (left: bool)
        ensures
            left == Self::left_by(target.deep_view())(self.deep_view()),
    ;
}

impl Named for HttpFront {
    open spec fn left_by(target: <Self as DeepView>::V) -> spec_fn(
        <Self as DeepView>::V,
    ) -> bool {
        other_http_front(target)
    }

    fn is_left_by(&self, target: &Self) -> (left: bool) {
        !self.hostname.same(&target.hostname) || !self.path_begin.same(&target.path_begin)
    }
}

impl Named for Instance {
    open spec fn left_by(target: <Self as DeepView>::V) -> spec_fn(
        <Self as DeepView>::V,
    ) -> bool {
        other_instance(target)
    }

    fn is_left_by(&self, target: &Self) -> (left: bool) {
        !self.ip_address.same(&target.ip_address) || self.port != target.port
    }
}

/// Cuts the list of `key` down to the items that a removal of `target`
/// leaves.
pub(crate) fn drop_items<T: Named>(table: &mut ListMap<String, Vec<T>>, key: &String, target: &T)
    ensures
        final(table)@ == with_kept(old(table)@, key@, T::left_by(target.deep_view())),
{
    match table.find(key) {
        Some(i) => {
            proof {
                lemma_position(table@, key@);
            }
            let items = table.value(i);
            let ghost keep = T::left_by(target.deep_view());
            let mut kept: Vec<T> = Vec::new();
            let mut j: usize = 0;
            assert(kept.deep_view() =~= items.deep_view().take(0).filter(keep)) by {
                reveal(Seq::filter);
            }
            while j < items.len()
                invariant
                    j <= items.len(),
                    keep == T::left_by(target.deep_view()),
                    kept.deep_view() == items.deep_view().take(j as int).filter(keep),
                decreases items.len() - j,
            {
                proof {
                    let seen = items.deep_view().take(j as int);
                    assert(items.deep_view().take(j + 1) =~= seen.push(items.deep_view()[j as int]));
                    seen.lemma_filter_push(items.deep_view()[j as int], keep);
                }
                if items[j].is_left_by(target) {
                    let ghost before = kept.deep_view();
                    let copy = items[j].duplicate();
                    kept.push(copy);
                    assert(kept.deep_view() =~= before.push(copy.deep_view()));
                }
                j += 1;
            }
            assert(items.deep_view().take(j as int) =~= items.deep_view());
            table.set_value(i, kept);
        },
        None => {},
    }
}

/// Whether `items` holds an item with the model of `item`.
pub(crate) fn contains_item<T: Value>(items: &Vec<T>, item: &T) -> (held: bool)
    ensures
        held == items.deep_view().contains(item.deep_view()),
{
    let mut i: usize = 0;
    while i < items.len()
        invariant
            i <= items.len(),
            forall|j: int| 0 <= j < i ==> items.deep_view()[j] != item.deep_view(),
        decreases items.len() - i,
    {
        if items[i].same(item) {
            assert(items.deep_view()[i as int] == item.deep_view());
            return true;
        }
        i += 1;
    }
    false
}

/// Whether the item at `place` repeats an earlier item of `items`.
pub(crate) fn repeats_earlier<T: Value>(items: &Vec<T>, place: usize) -> (repeated: bool)
    requires
        place < items.len(),
    ensures
        repeated == items.deep_view().take(place as int).contains(items.deep_view()[place as int]),
{
    let mut i: usize = 0;
    while i < place
        invariant
            i <= place < items.len(),
            forall|j: int| 0 <= j < i ==> items.deep_view()[j] != items.deep_view()[place as int],
        decreases place - i,
    {
        if items[i].same(&items[place]) {
            assert(items.deep_view().take(place as int)[i as int] == items.deep_view()[place as int]);
            return true;
        }
        i += 1;
    }
    false
}

/// Whether the list of `key` in `table` holds `item`.
pub(crate) fn holds_item<T: Value>(table: &ListMap<String, Vec<T>>, key: &String, item: &T) -> (held: bool)
    ensures
        held == holds(table@, key@, item.deep_view()),
{
    match table.get(key) {
        Some(items) => contains_item(items, item),
        None => false,
    }
}

/// Puts a copy of `item` into the list of `key`, unless the list holds the
/// like of it. A new key gets a list of its own.
pub(crate) fn add_item<T: Value>(table: &mut ListMap<String, Vec<T>>, key: &String, item: &T)
    ensures
        final(table)@ == with_item(old(table)@, key@, item.deep_view()),
{
    match table.find(key) {
        Some(i) => {
            proof {
                lemma_position(table@, key@);
            }
            if !contains_item(table.value(i), item) {
                table.push_value(i, item.duplicate());
            }
        },
        None => {
            let mut items: Vec<T> = Vec::new();
            items.push(item.duplicate());
            assert(items.deep_view() =~= seq![item.deep_view()]);
            table.insert(key.duplicate(), items);
        },
    }
}

/// Appends to `orders` the announcement of every item that `table` lists.
pub(crate) fn announce_all<T: Routed>(orders: &mut Vec<Order>, table: &ListMap<String, Vec<T>>)
    ensures
        final(orders).deep_view() == old(orders).deep_view() + listing(table@).map_values(
            T::announcement(),
        ),
{
    let ghost start = orders.deep_view();
    let mut i: usize = 0;
    assert(orders.deep_view() =~= start + listing(table@.take(0)).map_values(T::announcement()));
    while i < table.len()
        invariant
            i <= table@.len(),
            orders.deep_view() == start + listing(table@.take(i as int)).map_values(
                T::announcement(),
            ),
        decreases table@.len() - i,
    {
        let key = table.key(i);
        let items = table.value(i);
        let ghost done = orders.deep_view();
        let mut j: usize = 0;
        assert(orders.deep_view() =~= done + under(key@, items.deep_view().take(0)).map_values(
            T::announcement(),
        ));
        while j < items.len()
            invariant
                j <= items.len(),
                orders.deep_view() == done + under(
                    key@,
                    items.deep_view().take(j as int),
                ).map_values(T::announcement()),
            decreases items.len() - j,
        {
            let order = T::announce(key, &items[j]);
            let ghost before = orders.deep_view();
            orders.push(order);
            proof {
                let listed = under(key@, items.deep_view().take(j as int));
                let pair = (key@, items.deep_view()[j as int]);
                assert(under(key@, items.deep_view().take(j + 1)) =~= listed.push(pair));
                assert(listed.push(pair).map_values(T::announcement()) =~= listed.map_values(
                    T::announcement(),
                ).push(order.deep_view()));
                assert(orders.deep_view() =~= before.push(order.deep_view()));
                assert(orders.deep_view() =~= done + under(
                    key@,
                    items.deep_view().take(j + 1),
                ).map_values(T::announcement()));
            }
            j += 1;
        }
        proof {
            let earlier = listing(table@.take(i as int));
            let here = under(key@, items.deep_view());
            assert(items.deep_view().take(j as int) =~= items.deep_view());
            assert(table@.take(i + 1).drop_last() =~= table@.take(i as int));
            assert(listing(table@.take(i + 1)) == earlier + here);
            assert((earlier + here).map_values(T::announcement()) =~= earlier.map_values(
                T::announcement(),
            ) + here.map_values(T::announcement()));
            assert(orders.deep_view() =~= start + listing(table@.take(i + 1)).map_values(
                T::announcement(),
            ));
        }
        i += 1;
    }
    assert(table@.take(i as int) =~= table@);
}

/// The order that tells of a pair: its withdrawal or its announcement.
pub open spec fn telling<T: Routed>(withdrawn: bool) -> spec_fn(
    (Seq<char>, <T as DeepView>::V),
) -> OrderView {
    if withdrawn {
        T::withdrawal()
    } else {
        T::announcement()
    }
}

/// Appends to `orders` one order for each pair that `listed` lists and
/// `other` does not hold: its withdrawal if `withdrawn`, else its
/// announcement.
pub(crate) fn tell_changes<T: Routed>(
    orders: &mut Vec<Order>,
    listed: &ListMap<String, Vec<T>>,
    other: &ListMap<String, Vec<T>>,
    withdrawn: bool,
)
    ensures
        final(orders).deep_view() == old(orders).deep_view() + only_in(listed@, other@).map_values(
            telling::<T>(withdrawn),
        ),
{
    broadcast use vstd::seq_lib::group_seq_lib_default;

    let ghost start = orders.deep_view();
    let ghost tell = telling::<T>(withdrawn);
    let ghost missing = missing_from(other@);
    let mut i: usize = 0;
    assert(orders.deep_view() =~= start + only_in(listed@.take(0), other@).map_values(tell)) by {
        reveal(Seq::filter);
    }
    while i < listed.len()
        invariant
            i <= listed@.len(),
            tell == telling::<T>(withdrawn),
            missing == missing_from(other@),
            orders.deep_view() == start + only_in(listed@.take(i as int), other@).map_values(tell),
        decreases listed@.len() - i,
    {
        let key = listed.key(i);
        let items = listed.value(i);
        let ghost done = orders.deep_view();
        let mut j: usize = 0;
        assert(orders.deep_view() =~= done + under(
            key@,
            once(items.deep_view().take(0)),
        ).filter(missing).map_values(tell)) by {
            reveal(Seq::filter);
        }
        while j < items.len()
            invariant
                j <= items.len(),
                tell == telling::<T>(withdrawn),
                missing == missing_from(other@),
                orders.deep_view() == done + under(
                    key@,
                    once(items.deep_view().take(j as int)),
                ).filter(missing).map_values(tell),
            decreases items.len() - j,
        {
            let ghost seen = items.deep_view().take(j as int);
            let ghost item = items.deep_view()[j as int];
            let ghost pair = (key@, item);
            let ghost kept = under(key@, once(seen)).filter(missing);
            proof {
                assert(items.deep_view().take(j + 1).drop_last() =~= seen);
                assert(items.deep_view().take(j + 1).last() == item);
                if !seen.contains(item) {
                    assert(under(key@, once(seen).push(item)) =~= under(key@, once(seen)).push(
                        pair,
                    ));
                    under(key@, once(seen)).lemma_filter_push(pair, missing);
                }
            }
            if !repeats_earlier(items, j) && !holds_item(other, key, &items[j]) {
                let order = if withdrawn {
                    T::withdraw(key, &items[j])
                } else {
                    T::announce(key, &items[j])
                };
                let ghost before = orders.deep_view();
                orders.push(order);
                proof {
                    assert(orders.deep_view() =~= before.push(order.deep_view()));
                    assert(kept.push(pair).map_values(tell) =~= kept.map_values(tell).push(
                        order.deep_view(),
                    ));
                    assert(orders.deep_view() =~= done + kept.push(pair).map_values(tell));
                }
            }
            j += 1;
        }
        proof {
            let earlier = listing_once(listed@.take(i as int));
            let here = under(key@, once(items.deep_view()));
            assert(items.deep_view().take(j as int) =~= items.deep_view());
            assert(listed@.take(i + 1).drop_last() =~= listed@.take(i as int));
            assert(listing_once(listed@.take(i + 1)) == earlier + here);
            assert((earlier + here).filter(missing) == earlier.filter(missing) + here.filter(
                missing,
            ));
            assert((earlier.filter(missing) + here.filter(missing)).map_values(tell)
                =~= earlier.filter(missing).map_values(tell) + here.filter(missing).map_values(
                tell,
            ));
            assert(orders.deep_view() =~= start + only_in(listed@.take(i + 1), other@).map_values(
                tell,
            ));
        }
        i += 1;
    }
    assert(listed@.take(i as int) =~= listed@);
}

} // verus!
