//! What holds of the store across its operations and queries.

use vstd::prelude::*;
use crate::model::{ArchivedItem, ItemList, ItemListSummary, ItemStatus, PurchaseRecord, WishItem};
use crate::sort::{insert_sorted, is_sorted_by, lemma_sort_by, lemma_sort_by_contains, sort_by};
use crate::tables::{
    active_in, active_weight, archive_order, budget_weight, filter_seq, has_item, has_list,
    in_scope, item_ids, item_of, item_order, lemma_filter_seq_contains, lemma_item_of,
    lemma_item_of_push, lemma_item_of_same_rows, lemma_only_list_with_id, lemma_only_item_with_id,
    lemma_orders_are_strict_weak, list_ids, purchased_weight, record_ids, summary_order,
    sum_of, cents, item_other_than, record_not_of, StoreView,
};
use crate::store::lemma_max_id;
use crate::tables::{edited_item, max_id, new_item_row, new_record_row};
use crate::text::text_lt;

verus! {

/// The sum over the lists of a quantity that depends on the list id.
pub open spec fn sum_over_lists(lists: Seq<ItemList>, per: spec_fn(i64) -> int) -> int
    decreases lists.len(),
{
    if lists.len() == 0 {
        0
    } else {
        sum_over_lists(lists.drop_last(), per) + per(lists.last().id)
    }
}

/// Sums agree when the summed functions agree on the elements.
pub proof fn lemma_sum_of_ext<A>(s: Seq<A>, f: spec_fn(A) -> int, h: spec_fn(A) -> int)
    requires
        forall|x: A| s.contains(x) ==> f(x) == h(x),
    ensures
        sum_of(s, f) == sum_of(s, h),
    decreases s.len(),
{
    if s.len() > 0 {
        let t = s.drop_last();
        assert forall|x: A| t.contains(x) implies f(x) == h(x) by {
            let k = choose|k: int| 0 <= k < t.len() && t[k] == x;
            assert(s[k] == x);
            assert(s.contains(x));
        }
        lemma_sum_of_ext(t, f, h);
        assert(s[s.len() - 1] == s.last());
        assert(s.contains(s.last()));
    }
}

/// A sum of two functions is the sum of their sums.
pub proof fn lemma_sum_of_add<A>(s: Seq<A>, f: spec_fn(A) -> int, h: spec_fn(A) -> int)
    ensures
        sum_of(s, |x: A| f(x) + h(x)) == sum_of(s, f) + sum_of(s, h),
    decreases s.len(),
{
    if s.len() > 0 {
        lemma_sum_of_add(s.drop_last(), f, h);
    }
}

/// Summing, over distinct lists, the parts of a sum that belong to each list
/// gives the part of the sum that belongs to any of them.
proof fn lemma_sum_over_lists_split<A>(
    s: Seq<A>,
    lists: Seq<ItemList>,
    key: spec_fn(A) -> i64,
    g: spec_fn(A) -> int,
    sel: spec_fn(i64) -> spec_fn(A) -> int,
)
    requires
        forall|i: int, j: int|
            0 <= i < j < lists.len() ==> #[trigger] lists[i].id != #[trigger] lists[j].id,
        forall|id: i64, x: A|
            s.contains(x) ==> #[trigger] sel(id)(x) == if key(x) == id {
                g(x)
            } else {
                0
            },
    ensures
        sum_over_lists(lists, |id: i64| sum_of(s, sel(id))) == sum_of(
            s,
            |x: A|
                if has_list(lists, key(x)) {
                    g(x)
                } else {
                    0
                },
        ),
    decreases lists.len(),
{
    let per = |id: i64| sum_of(s, sel(id));
    if lists.len() == 0 {
        lemma_sum_of_ext(
            s,
            |x: A|
                if has_list(lists, key(x)) {
                    g(x)
                } else {
                    0
                },
            |x: A| 0int,
        );
        lemma_sum_zero(s);
    } else {
        let rest = lists.drop_last();
        let l = lists.last();
        assert forall|i: int, j: int| 0 <= i < j < rest.len() implies #[trigger] rest[i].id
            != #[trigger] rest[j].id by {
            assert(rest[i] == lists[i] && rest[j] == lists[j]);
        }
        lemma_sum_over_lists_split(s, rest, key, g, sel);
        let before = |x: A|
            if has_list(rest, key(x)) {
                g(x)
            } else {
                0
            };
        let after = |x: A|
            if has_list(lists, key(x)) {
                g(x)
            } else {
                0
            };
        lemma_sum_of_add(s, before, sel(l.id));
        assert forall|x: A| s.contains(x) implies after(x) == (|x: A| before(x) + sel(l.id)(x))(
            x,
        ) by {
            assert(sel(l.id)(x) == if key(x) == l.id {
                g(x)
            } else {
                0
            });
            if has_list(rest, key(x)) {
                let k = choose|k: int| 0 <= k < rest.len() && #[trigger] rest[k].id == key(x);
                assert(lists[k] == rest[k]);
                assert(lists[lists.len() - 1] == l);
                assert(key(x) != l.id);
            }
            if has_list(lists, key(x)) && key(x) != l.id {
                let k = choose|k: int| 0 <= k < lists.len() && #[trigger] lists[k].id == key(x);
                assert(k != lists.len() - 1);
                assert(rest[k] == lists[k]);
            }
            if key(x) == l.id {
                assert(lists[lists.len() - 1].id == key(x));
            }
        }
        lemma_sum_of_ext(s, after, |x: A| before(x) + sel(l.id)(x));
    }
}

/// A sum of zeros is zero.
pub proof fn lemma_sum_zero<A>(s: Seq<A>)
    ensures
        sum_of(s, |x: A| 0int) == 0,
    decreases s.len(),
{
    if s.len() > 0 {
        lemma_sum_zero(s.drop_last());
    }
}

/// When every element belongs to one of the distinct lists, the per-list
/// parts of a sum add up to the whole sum.
proof fn lemma_sum_partitioned<A>(
    s: Seq<A>,
    lists: Seq<ItemList>,
    key: spec_fn(A) -> i64,
    g: spec_fn(A) -> int,
    sel: spec_fn(i64) -> spec_fn(A) -> int,
)
    requires
        forall|i: int, j: int|
            0 <= i < j < lists.len() ==> #[trigger] lists[i].id != #[trigger] lists[j].id,
        forall|id: i64, x: A|
            s.contains(x) ==> #[trigger] sel(id)(x) == if key(x) == id {
                g(x)
            } else {
                0
            },
        forall|x: A| s.contains(x) ==> has_list(lists, #[trigger] key(x)),
    ensures
        sum_over_lists(lists, |id: i64| sum_of(s, sel(id))) == sum_of(s, g),
{
    lemma_sum_over_lists_split(s, lists, key, g, sel);
    lemma_sum_of_ext(
        s,
        |x: A|
            if has_list(lists, key(x)) {
                g(x)
            } else {
                0
            },
        g,
    );
}

/// The lists of a consistent store have distinct ids.
proof fn lemma_list_ids_distinct(v: StoreView)
    requires
        v.well_formed(),
    ensures
        forall|i: int, j: int|
            0 <= i < j < v.lists.len() ==> #[trigger] v.lists[i].id != #[trigger] v.lists[j].id,
{
    assert forall|i: int, j: int| 0 <= i < j < v.lists.len() implies #[trigger] v.lists[i].id
        != #[trigger] v.lists[j].id by {
        assert(list_ids(v.lists)[i] == v.lists[i].id);
        assert(list_ids(v.lists)[j] == v.lists[j].id);
    }
}

/// The totals over all lists are the sums of the totals of each list: every
/// count and every amount of the whole store is split among its lists.
pub proof fn law_global_stats_sum_list_stats(v: StoreView)
    requires
        v.well_formed(),
    ensures
        v.active_count(None) == sum_over_lists(v.lists, |id: i64| v.active_count(Some(id))),
        v.purchased_count(None) == sum_over_lists(v.lists, |id: i64| v.purchased_count(Some(id))),
        v.pending_budget(None) == sum_over_lists(v.lists, |id: i64| v.pending_budget(Some(id))),
        v.total_spent(None) == sum_over_lists(v.lists, |id: i64| v.total_spent(Some(id))),
{
    lemma_list_ids_distinct(v);
    let item_key = |w: WishItem| w.list_id;
    assert forall|w: WishItem| v.items.contains(w) implies has_list(v.lists, #[trigger] item_key(w)) by {
        let k = choose|k: int| 0 <= k < v.items.len() && v.items[k] == w;
        assert(has_list(v.lists, v.items[k].list_id));
    }
    let sel_active = |id: i64| active_weight(Some(id));
    lemma_sum_partitioned(v.items, v.lists, item_key, active_weight(None), sel_active);
    assert((|id: i64| sum_of(v.items, sel_active(id))) =~= (|id: i64| v.active_count(Some(id))));

    let sel_purchased = |id: i64| purchased_weight(Some(id));
    lemma_sum_partitioned(v.items, v.lists, item_key, purchased_weight(None), sel_purchased);
    assert((|id: i64| sum_of(v.items, sel_purchased(id))) =~= (|id: i64| v.purchased_count(Some(id))));

    let sel_budget = |id: i64| budget_weight(Some(id));
    lemma_sum_partitioned(v.items, v.lists, item_key, budget_weight(None), sel_budget);
    assert((|id: i64| sum_of(v.items, sel_budget(id))) =~= (|id: i64| v.pending_budget(Some(id))));

    let record_key = |r: PurchaseRecord|
        match item_of(v.items, r.item_id) {
            Some(w) => w.list_id,
            None => 0i64,
        };
    assert forall|r: PurchaseRecord| v.records.contains(r) implies has_list(
        v.lists,
        #[trigger] record_key(r),
    ) && item_of(v.items, r.item_id) is Some by {
        let k = choose|k: int| 0 <= k < v.records.len() && v.records[k] == r;
        assert(has_item(v.items, v.records[k].item_id));
        lemma_item_of(v.items, r.item_id);
        let w = item_of(v.items, r.item_id)->0;
        let q = choose|q: int| 0 <= q < v.items.len() && v.items[q] == w;
        assert(has_list(v.lists, v.items[q].list_id));
    }
    let sel_spent = |id: i64| v.spent_weight(Some(id));
    assert forall|id: i64, r: PurchaseRecord| v.records.contains(r) implies #[trigger] sel_spent(
        id,
    )(r) == if record_key(r) == id {
        v.spent_weight(None)(r)
    } else {
        0
    } by {
        assert(has_list(v.lists, record_key(r)));
    }
    lemma_sum_partitioned(v.records, v.lists, record_key, v.spent_weight(None), sel_spent);
    assert((|id: i64| sum_of(v.records, sel_spent(id))) =~= (|id: i64| v.total_spent(Some(id))));
}

/// A row of the archive is a record of the table joined with its item.
proof fn lemma_archive_rows_contains(
    v: StoreView,
    records: Seq<PurchaseRecord>,
    scope: Option<i64>,
    a: ArchivedItem,
)
    ensures
        v.archive_rows(records, scope).contains(a) <==> {
            &&& records.contains(a.record)
            &&& item_of(v.items, a.record.item_id) == Some(a.item)
            &&& a.item.status == ItemStatus::Purchased
            &&& in_scope(a.item.list_id, scope)
        },
    decreases records.len(),
{
    if records.len() == 0 {
        assert(!v.archive_rows(records, scope).contains(a));
    } else {
        let t = records.drop_last();
        let r = records.last();
        lemma_archive_rows_contains(v, t, scope, a);
        assert(records =~= t.push(r));
        crate::tables::lemma_push_contains(t, r, a.record);
        let rest = v.archive_rows(t, scope);
        match item_of(v.items, r.item_id) {
            Some(w) => {
                if w.status == ItemStatus::Purchased && in_scope(w.list_id, scope) {
                    crate::tables::lemma_push_contains(rest, ArchivedItem { item: w, record: r }, a);
                }
            },
            None => {},
        }
    }
}

/// The active items of a list are exactly the items of the store that are
/// active and belong to the list, ordered by priority (want times need),
/// highest first, and among equal priority the most recently created first.
pub proof fn law_active_items(v: StoreView, list_id: i64)
    ensures
        is_sorted_by(v.active_items(list_id), item_order()),
        forall|w: WishItem|
            #[trigger] v.active_items(list_id).contains(w) <==> v.items.contains(w) && w.status
                == ItemStatus::Active && w.list_id == list_id,
{
    lemma_orders_are_strict_weak();
    let f = filter_seq(v.items, active_in(list_id));
    lemma_sort_by(f, item_order());
    assert forall|w: WishItem|
        #[trigger] v.active_items(list_id).contains(w) <==> v.items.contains(w) && w.status
            == ItemStatus::Active && w.list_id == list_id by {
        lemma_sort_by_contains(f, item_order(), w);
        lemma_filter_seq_contains(v.items, active_in(list_id), w);
    }
}

/// The lists with their totals hold one summary per list, oldest list first.
pub proof fn law_lists_with_stats(v: StoreView)
    ensures
        is_sorted_by(v.lists_with_stats(), summary_order()),
        v.lists_with_stats().to_multiset() == v.lists.map_values(
            |l: ItemList| v.summary_of(l),
        ).to_multiset(),
        v.lists_with_stats().len() == v.lists.len(),
{
    lemma_orders_are_strict_weak();
    lemma_sort_by(v.lists.map_values(|l: ItemList| v.summary_of(l)), summary_order());
}

/// The archive holds exactly the purchase records whose item is purchased
/// and in scope, each joined with its item, the most recent purchase first.
pub proof fn law_archive(v: StoreView, scope: Option<i64>)
    ensures
        is_sorted_by(v.archive(scope), archive_order()),
        forall|a: ArchivedItem|
            #[trigger] v.archive(scope).contains(a) <==> {
                &&& v.records.contains(a.record)
                &&& item_of(v.items, a.record.item_id) == Some(a.item)
                &&& a.item.status == ItemStatus::Purchased
                &&& in_scope(a.item.list_id, scope)
            },
{
    lemma_orders_are_strict_weak();
    let rows = v.archive_rows(v.records, scope);
    lemma_sort_by(rows, archive_order());
    assert forall|a: ArchivedItem| #[trigger] v.archive(scope).contains(a) <==> {
        &&& v.records.contains(a.record)
        &&& item_of(v.items, a.record.item_id) == Some(a.item)
        &&& a.item.status == ItemStatus::Purchased
        &&& in_scope(a.item.list_id, scope)
    } by {
        lemma_sort_by_contains(rows, archive_order(), a);
        lemma_archive_rows_contains(v, v.records, scope, a);
    }
}

/// In a consistent store the next id of each table is positive and differs
/// from every id already in that table.
pub proof fn law_next_ids_are_fresh(v: StoreView)
    requires
        v.well_formed(),
    ensures
        v.next_list_id() >= 1,
        v.next_item_id() >= 1,
        v.next_record_id() >= 1,
        forall|i: int| 0 <= i < v.lists.len() ==> #[trigger] v.lists[i].id < v.next_list_id(),
        forall|i: int| 0 <= i < v.items.len() ==> #[trigger] v.items[i].id < v.next_item_id(),
        forall|i: int|
            0 <= i < v.records.len() ==> #[trigger] v.records[i].id < v.next_record_id(),
{
    lemma_max_id(list_ids(v.lists));
    lemma_max_id(item_ids(v.items));
    lemma_max_id(record_ids(v.records));
    assert forall|i: int| 0 <= i < v.lists.len() implies #[trigger] v.lists[i].id < v.next_list_id() by {
        assert(list_ids(v.lists)[i] == v.lists[i].id);
    }
    assert forall|i: int| 0 <= i < v.items.len() implies #[trigger] v.items[i].id < v.next_item_id() by {
        assert(item_ids(v.items)[i] == v.items[i].id);
    }
    assert forall|i: int| 0 <= i < v.records.len() implies #[trigger] v.records[i].id
        < v.next_record_id() by {
        assert(record_ids(v.records)[i] == v.records[i].id);
    }
}

/// Adding an element adds its weight to a sum.
pub proof fn lemma_sum_of_push<A>(s: Seq<A>, x: A, f: spec_fn(A) -> int)
    ensures
        sum_of(s.push(x), f) == sum_of(s, f) + f(x),
{
    assert(s.push(x).drop_last() =~= s);
}

/// An item created in a consistent store is the one found by its id, shows
/// among the active items of its list, and adds one to the active count and
/// its estimated cost to the pending budget of its list; the totals of every
/// other list, and all purchase totals, stay as they were.
pub proof fn law_created_item(old: StoreView, row: WishItem, other: i64)
    requires
        old.well_formed(),
        row.id == old.next_item_id(),
        row.status == ItemStatus::Active,
        other != row.list_id,
    ensures
        ({
            let new = StoreView { items: old.items.push(row), ..old };
            &&& forall|w: WishItem| #[trigger] new.items.contains(w) && w.id == row.id ==> w == row
            &&& item_of(new.items, row.id) == Some(row)
            &&& new.active_items(row.list_id).contains(row)
            &&& new.active_count(Some(row.list_id)) == old.active_count(Some(row.list_id)) + 1
            &&& new.pending_budget(Some(row.list_id)) == old.pending_budget(Some(row.list_id))
                + cents(row.estimated_cost)
            &&& new.purchased_count(Some(row.list_id)) == old.purchased_count(Some(row.list_id))
            &&& new.active_count(Some(other)) == old.active_count(Some(other))
            &&& new.pending_budget(Some(other)) == old.pending_budget(Some(other))
            &&& new.purchased_count(Some(other)) == old.purchased_count(Some(other))
            &&& new.total_spent(None) == old.total_spent(None)
            &&& new.total_spent(Some(row.list_id)) == old.total_spent(Some(row.list_id))
            &&& new.total_spent(Some(other)) == old.total_spent(Some(other))
        }),
{
    let new = StoreView { items: old.items.push(row), ..old };
    law_next_ids_are_fresh(old);
    assert forall|w: WishItem| #[trigger] new.items.contains(w) && w.id == row.id implies w == row by {
        crate::tables::lemma_push_contains(old.items, row, w);
        if old.items.contains(w) {
            let k = choose|k: int| 0 <= k < old.items.len() && old.items[k] == w;
            assert(old.items[k].id < old.next_item_id());
        }
    }
    lemma_item_of_push(old.items, row, row.id);
    law_active_items(new, row.list_id);
    crate::tables::lemma_push_contains(old.items, row, row);
    lemma_sum_of_push(old.items, row, active_weight(Some(row.list_id)));
    lemma_sum_of_push(old.items, row, budget_weight(Some(row.list_id)));
    lemma_sum_of_push(old.items, row, purchased_weight(Some(row.list_id)));
    lemma_sum_of_push(old.items, row, active_weight(Some(other)));
    lemma_sum_of_push(old.items, row, budget_weight(Some(other)));
    lemma_sum_of_push(old.items, row, purchased_weight(Some(other)));
    assert forall|scope: Option<i64>| new.total_spent(scope) == old.total_spent(scope) by {
        assert forall|r: PurchaseRecord| old.records.contains(r) implies new.spent_weight(scope)(r)
            == old.spent_weight(scope)(r) by {
            let k = choose|k: int| 0 <= k < old.records.len() && old.records[k] == r;
            assert(has_item(old.items, old.records[k].item_id));
            let q = choose|q: int| 0 <= q < old.items.len() && #[trigger] old.items[q].id
                == r.item_id;
            assert(old.items[q].id < old.next_item_id());
            lemma_item_of_push(old.items, row, r.item_id);
        }
        lemma_sum_of_ext(old.records, new.spent_weight(scope), old.spent_weight(scope));
    }
    assert(new.total_spent(None) == old.total_spent(None));
    assert(new.total_spent(Some(row.list_id)) == old.total_spent(Some(row.list_id)));
    assert(new.total_spent(Some(other)) == old.total_spent(Some(other)));
}

/// A list created in a consistent store is the one found by its id, and it
/// starts with no item, no purchase and zero totals.
pub proof fn law_created_list(old: StoreView, l: ItemList)
    requires
        old.well_formed(),
        l.id == old.next_list_id(),
    ensures
        ({
            let new = StoreView { lists: old.lists.push(l), ..old };
            &&& forall|x: ItemList| #[trigger] new.lists.contains(x) && x.id == l.id ==> x == l
            &&& new.active_count(Some(l.id)) == 0
            &&& new.purchased_count(Some(l.id)) == 0
            &&& new.pending_budget(Some(l.id)) == 0
            &&& new.total_spent(Some(l.id)) == 0
            &&& new.active_items(l.id).len() == 0
        }),
{
    let new = StoreView { lists: old.lists.push(l), ..old };
    law_next_ids_are_fresh(old);
    assert forall|x: ItemList| #[trigger] new.lists.contains(x) && x.id == l.id implies x == l by {
        crate::tables::lemma_push_contains(old.lists, l, x);
        if old.lists.contains(x) {
            let k = choose|k: int| 0 <= k < old.lists.len() && old.lists[k] == x;
            assert(old.lists[k].id < old.next_list_id());
        }
    }
    // no item of the store belongs to the new list
    assert forall|w: WishItem| old.items.contains(w) implies w.list_id != l.id by {
        let k = choose|k: int| 0 <= k < old.items.len() && old.items[k] == w;
        assert(has_list(old.lists, old.items[k].list_id));
        let q = choose|q: int| 0 <= q < old.lists.len() && #[trigger] old.lists[q].id == w.list_id;
        assert(old.lists[q].id < old.next_list_id());
    }
    lemma_sum_of_ext(old.items, active_weight(Some(l.id)), |w: WishItem| 0int);
    lemma_sum_of_ext(old.items, purchased_weight(Some(l.id)), |w: WishItem| 0int);
    lemma_sum_of_ext(old.items, budget_weight(Some(l.id)), |w: WishItem| 0int);
    lemma_sum_zero(old.items);
    assert forall|r: PurchaseRecord| old.records.contains(r) implies new.spent_weight(Some(l.id))(
        r,
    ) == 0 by {
        let k = choose|k: int| 0 <= k < old.records.len() && old.records[k] == r;
        assert(has_item(old.items, old.records[k].item_id));
        lemma_item_of(old.items, r.item_id);
        let w = item_of(old.items, r.item_id)->0;
        assert(old.items.contains(w));
    }
    lemma_sum_of_ext(old.records, new.spent_weight(Some(l.id)), |r: PurchaseRecord| 0int);
    lemma_sum_zero(old.records);
    law_active_items(new, l.id);
    if new.active_items(l.id).len() > 0 {
        let w = new.active_items(l.id)[0];
        assert(new.active_items(l.id).contains(w));
        assert(old.items.contains(w));
    }
}

/// Once an item is marked as purchased it is in no list's active items, and
/// the archive, over all lists and over its own list, holds it with the new
/// purchase record.
pub proof fn law_marked_item(old: StoreView, new: StoreView, id: i64, rec: PurchaseRecord)
    requires
        has_item(old.items, id),
        rec.item_id == id,
        new.lists == old.lists,
        new.records == old.records.push(rec),
        old.items_marked_purchased(new, id),
    ensures
        forall|l: i64, w: WishItem| #[trigger] new.active_items(l).contains(w) ==> w.id != id,
        item_of(new.items, id) is Some,
        ({
            let w = item_of(new.items, id)->0;
            &&& w.status == ItemStatus::Purchased
            &&& new.archive(None).contains(ArchivedItem { item: w, record: rec })
            &&& new.archive(Some(w.list_id)).contains(ArchivedItem { item: w, record: rec })
        }),
{
    assert forall|l: i64, w: WishItem| #[trigger] new.active_items(l).contains(w) implies w.id
        != id by {
        law_active_items(new, l);
        let k = choose|k: int| 0 <= k < new.items.len() && new.items[k] == w;
        assert(new.items[k] == if old.items[k].id == id {
            WishItem { status: ItemStatus::Purchased, ..old.items[k] }
        } else {
            old.items[k]
        });
    }
    let k = choose|k: int| 0 <= k < old.items.len() && #[trigger] old.items[k].id == id;
    assert(new.items[k].id == id);
    assert(has_item(new.items, id));
    lemma_item_of(new.items, id);
    let w = item_of(new.items, id)->0;
    let q = choose|q: int| 0 <= q < new.items.len() && new.items[q] == w;
    assert(new.items[q] == if old.items[q].id == id {
        WishItem { status: ItemStatus::Purchased, ..old.items[q] }
    } else {
        old.items[q]
    });
    crate::tables::lemma_push_contains(old.records, rec, rec);
    law_archive(new, None);
    law_archive(new, Some(w.list_id));
}

/// After a transfer, the active item shows among the active items of the
/// target list and among those of no other list.
pub proof fn law_transferred_item(
    old: StoreView,
    new: StoreView,
    item: WishItem,
    target_list_id: i64,
)
    requires
        old.items.contains(item),
        item.status == ItemStatus::Active,
        old.items_moved(new, item.id, target_list_id),
    ensures
        new.active_items(target_list_id).contains(WishItem { list_id: target_list_id, ..item }),
        forall|l: i64, w: WishItem|
            l != target_list_id && #[trigger] new.active_items(l).contains(w) ==> w.id != item.id,
{
    let k = choose|k: int| 0 <= k < old.items.len() && old.items[k] == item;
    assert(new.items[k] == WishItem { list_id: target_list_id, ..item });
    assert(new.items.contains(WishItem { list_id: target_list_id, ..item }));
    law_active_items(new, target_list_id);
    assert forall|l: i64, w: WishItem|
        l != target_list_id && #[trigger] new.active_items(l).contains(w) implies w.id != item.id by {
        law_active_items(new, l);
        let q = choose|q: int| 0 <= q < new.items.len() && new.items[q] == w;
        assert(new.items[q] == if old.items[q].id == item.id {
            WishItem { list_id: target_list_id, ..old.items[q] }
        } else {
            old.items[q]
        });
    }
}

/// After a deletion no item has the deleted id, no purchase record refers to
/// it, and the archive holds none of its purchases.
pub proof fn law_deleted_item(old: StoreView, id: i64)
    ensures
        ({
            let new = StoreView {
                items: filter_seq(old.items, item_other_than(id)),
                records: filter_seq(old.records, record_not_of(id)),
                ..old
            };
            &&& !has_item(new.items, id)
            &&& forall|r: PurchaseRecord| #[trigger] new.records.contains(r) ==> r.item_id != id
            &&& forall|a: ArchivedItem| #[trigger] new.archive(None).contains(a) ==> a.item.id != id
        }),
{
    let new = StoreView {
        items: filter_seq(old.items, item_other_than(id)),
        records: filter_seq(old.records, record_not_of(id)),
        ..old
    };
    if has_item(new.items, id) {
        let k = choose|k: int| 0 <= k < new.items.len() && #[trigger] new.items[k].id == id;
        lemma_filter_seq_contains(old.items, item_other_than(id), new.items[k]);
    }
    assert forall|r: PurchaseRecord| #[trigger] new.records.contains(r) implies r.item_id != id by {
        lemma_filter_seq_contains(old.records, record_not_of(id), r);
    }
    assert forall|a: ArchivedItem| #[trigger] new.archive(None).contains(a) implies a.item.id
        != id by {
        law_archive(new, None);
        lemma_filter_seq_contains(old.records, record_not_of(id), a.record);
        lemma_item_of(new.items, a.record.item_id);
    }
}

/// Counts are between zero and the number of items.
proof fn lemma_count_bounds(s: Seq<WishItem>, f: spec_fn(WishItem) -> int)
    requires
        forall|w: WishItem| 0 <= #[trigger] f(w) <= 1,
    ensures
        0 <= sum_of(s, f) <= s.len(),
    decreases s.len(),
{
    if s.len() > 0 {
        lemma_count_bounds(s.drop_last(), f);
    }
}

/// A sum of estimated costs stays within what the number of items allows.
proof fn lemma_budget_bounds(s: Seq<WishItem>, scope: Option<i64>)
    ensures
        -(s.len() as int) * 0x8000_0000_0000_0000 <= sum_of(s, budget_weight(scope)) <= (
        s.len() as int) * 0x7fff_ffff_ffff_ffff,
    decreases s.len(),
{
    if s.len() > 0 {
        lemma_budget_bounds(s.drop_last(), scope);
    }
}

/// The summary of a list carries its id, name and creation time, and exactly
/// the active count and the pending budget that the totals of that list report.
pub proof fn law_summary_matches_list_stats(v: StoreView, l: ItemList)
    requires
        v.items.len() <= u64::MAX,
    ensures
        v.summary_of(l).active_count == v.active_count(Some(l.id)),
        v.summary_of(l).estimated_budget == v.pending_budget(Some(l.id)),
        v.summary_of(l).id == l.id,
        v.summary_of(l).name == l.name,
        v.summary_of(l).created_at == l.created_at,
{
    lemma_count_bounds(v.items, active_weight(Some(l.id)));
    lemma_budget_bounds(v.items, Some(l.id));
    assert((v.items.len() as int) * 0x8000_0000_0000_0000 <= 0xffff_ffff_ffff_ffff * 0x8000_0000_0000_0000)
        by (nonlinear_arith)
        requires
            v.items.len() <= 0xffff_ffff_ffff_ffff,
    ;
}

/// The archive of one list is the overall archive restricted to that list.
pub proof fn law_list_archive_is_part_of_archive(v: StoreView, list_id: i64)
    ensures
        forall|a: ArchivedItem|
            #[trigger] v.archive(Some(list_id)).contains(a) <==> v.archive(None).contains(a)
                && a.item.list_id == list_id,
{
    law_archive(v, Some(list_id));
    law_archive(v, None);
}

/// Replacing one element changes a sum by the difference of the weights.
pub proof fn lemma_sum_of_update<A>(s: Seq<A>, k: int, x: A, f: spec_fn(A) -> int)
    requires
        0 <= k < s.len(),
    ensures
        sum_of(s.update(k, x), f) == sum_of(s, f) - f(s[k]) + f(x),
    decreases s.len(),
{
    let u = s.update(k, x);
    if k == s.len() - 1 {
        assert(u.drop_last() =~= s.drop_last());
    } else {
        lemma_sum_of_update(s.drop_last(), k, x, f);
        assert(u.drop_last() =~= s.drop_last().update(k, x));
    }
}

/// Marking an active item of a consistent store as purchased moves it from
/// the active count to the purchased count of its list, takes its estimate
/// out of the pending budget, and adds the paid cost to the list's spending
/// and to the overall spending.
pub proof fn law_marking_updates_stats(old: StoreView, new: StoreView, item: WishItem, rec: PurchaseRecord)
    requires
        old.well_formed(),
        old.items.contains(item),
        item.status == ItemStatus::Active,
        rec.item_id == item.id,
        new.lists == old.lists,
        new.records == old.records.push(rec),
        old.items_marked_purchased(new, item.id),
    ensures
        new.active_count(Some(item.list_id)) == old.active_count(Some(item.list_id)) - 1,
        new.purchased_count(Some(item.list_id)) == old.purchased_count(Some(item.list_id)) + 1,
        new.pending_budget(Some(item.list_id)) == old.pending_budget(Some(item.list_id)) - cents(
            item.estimated_cost,
        ),
        new.total_spent(Some(item.list_id)) == old.total_spent(Some(item.list_id)) + cents(
            rec.actual_cost,
        ),
        new.total_spent(None) == old.total_spent(None) + cents(rec.actual_cost),
{
    let k = choose|k: int| 0 <= k < old.items.len() && old.items[k] == item;
    let marked = WishItem { status: ItemStatus::Purchased, ..item };
    // ids are unique, so the marked item is the only one that changes
    assert(new.items =~= old.items.update(k, marked)) by {
        assert forall|j: int| 0 <= j < old.items.len() implies new.items[j] == old.items.update(
            k,
            marked,
        )[j] by {
            if j != k && old.items[j].id == item.id {
                assert(item_ids(old.items)[j] == old.items[j].id);
                assert(item_ids(old.items)[k] == old.items[k].id);
            }
        }
    }
    let l = Some(item.list_id);
    lemma_sum_of_update(old.items, k, marked, active_weight(l));
    lemma_sum_of_update(old.items, k, marked, purchased_weight(l));
    lemma_sum_of_update(old.items, k, marked, budget_weight(l));
    // the join finds, for every record, an item of the same list as before
    assert forall|scope: Option<i64>, r: PurchaseRecord| old.records.contains(r) implies #[trigger] new.spent_weight(
        scope,
    )(r) == old.spent_weight(scope)(r) by {
        lemma_item_of_same_rows(old.items, new.items, r.item_id);
    }
    assert forall|scope: Option<i64>| new.total_spent(scope) == old.total_spent(scope) + new.spent_weight(scope)(rec) by {
        lemma_sum_of_ext(old.records, new.spent_weight(scope), old.spent_weight(scope));
        lemma_sum_of_push(old.records, rec, new.spent_weight(scope));
    }
    assert(new.items[k].id == item.id);
    assert(has_item(new.items, item.id));
    lemma_item_of(new.items, item.id);
    lemma_item_of_same_rows(old.items, new.items, item.id);
    lemma_item_of(old.items, item.id);
    let j = choose|j: int|
        0 <= j < old.items.len() && item_of(old.items, item.id) == Some(old.items[j])
            && item_of(new.items, item.id) == Some(#[trigger] new.items[j]);
    if j != k {
        assert(item_ids(old.items)[j] == old.items[j].id);
        assert(item_ids(old.items)[k] == old.items[k].id);
    }
    assert(new.spent_weight(l)(rec) == cents(rec.actual_cost));
    assert(new.total_spent(l) == old.total_spent(l) + cents(rec.actual_cost));
    assert(new.total_spent(None) == old.total_spent(None) + cents(rec.actual_cost));
}

/// A sum over a sequence with an element put in front.
pub proof fn lemma_sum_of_prepend<A>(a: A, t: Seq<A>, f: spec_fn(A) -> int)
    ensures
        sum_of(seq![a] + t, f) == f(a) + sum_of(t, f),
    decreases t.len(),
{
    if t.len() > 0 {
        lemma_sum_of_prepend(a, t.drop_last(), f);
        assert((seq![a] + t).drop_last() =~= seq![a] + t.drop_last());
        assert((seq![a] + t).last() == t.last());
        let u = seq![a] + t;
        assert(u.len() > 0);
        assert(sum_of(u, f) == sum_of(u.drop_last(), f) + f(u.last()));
        assert(sum_of(t, f) == sum_of(t.drop_last(), f) + f(t.last()));
    } else {
        assert(seq![a] + t =~= seq![a]);
        assert(seq![a].drop_last() =~= Seq::<A>::empty());
        assert(seq![a].last() == a);
        assert(sum_of(seq![a], f) == sum_of(seq![a].drop_last(), f) + f(seq![a].last()));
        assert(sum_of(Seq::<A>::empty(), f) == 0);
    }
}

/// Sorting does not change a sum.
pub proof fn lemma_sum_of_sort_by<A>(s: Seq<A>, before: spec_fn(A, A) -> bool, f: spec_fn(A) -> int)
    ensures
        sum_of(sort_by(s, before), f) == sum_of(s, f),
    decreases s.len(),
{
    if s.len() > 0 {
        lemma_sum_of_sort_by(s.drop_last(), before, f);
        lemma_sum_of_insert_sorted(sort_by(s.drop_last(), before), s.last(), before, f);
    }
}

proof fn lemma_sum_of_insert_sorted<A>(
    s: Seq<A>,
    x: A,
    before: spec_fn(A, A) -> bool,
    f: spec_fn(A) -> int,
)
    ensures
        sum_of(insert_sorted(s, x, before), f) == sum_of(s, f) + f(x),
    decreases s.len(),
{
    if s.len() == 0 {
        lemma_sum_of_prepend(x, s, f);
        assert(seq![x] + s =~= seq![x]);
    } else if before(x, s[0]) {
        lemma_sum_of_prepend(x, s, f);
    } else {
        let t = s.drop_first();
        lemma_sum_of_insert_sorted(t, x, before, f);
        lemma_sum_of_prepend(s[0], insert_sorted(t, x, before), f);
        lemma_sum_of_prepend(s[0], t, f);
        assert(seq![s[0]] + t =~= s);
    }
}

/// The paid cost of an archived purchase.
pub open spec fn paid() -> spec_fn(ArchivedItem) -> int {
    |a: ArchivedItem| cents(a.record.actual_cost)
}

proof fn lemma_archive_rows_total(v: StoreView, records: Seq<PurchaseRecord>, scope: Option<i64>)
    requires
        forall|i: int|
            0 <= i < records.len() ==> match item_of(v.items, #[trigger] records[i].item_id) {
                Some(w) => w.status == ItemStatus::Purchased,
                None => false,
            },
    ensures
        sum_of(v.archive_rows(records, scope), paid()) == sum_of(records, v.spent_weight(scope)),
    decreases records.len(),
{
    if records.len() > 0 {
        let t = records.drop_last();
        assert forall|i: int| 0 <= i < t.len() implies match item_of(v.items, #[trigger] t[i].item_id) {
            Some(w) => w.status == ItemStatus::Purchased,
            None => false,
        } by {
            assert(t[i] == records[i]);
        }
        lemma_archive_rows_total(v, t, scope);
        let r = records.last();
        assert(records[records.len() - 1] == r);
        let rest = v.archive_rows(t, scope);
        if let Some(w) = item_of(v.items, r.item_id) {
            if in_scope(w.list_id, scope) {
                lemma_sum_of_push(rest, ArchivedItem { item: w, record: r }, paid());
            }
        }
    }
}

/// When every purchase belongs to a purchased item (which every operation of
/// the store keeps), the spending of a list, or of all lists, is the sum of
/// the paid costs shown in its archive.
pub proof fn law_total_spent_is_archive_total(v: StoreView, scope: Option<i64>)
    requires
        v.purchases_have_purchased_items(),
    ensures
        v.total_spent(scope) == sum_of(v.archive(scope), paid()),
{
    lemma_archive_rows_total(v, v.records, scope);
    lemma_sum_of_sort_by(v.archive_rows(v.records, scope), archive_order(), paid());
}

/// An element of a mapped sequence is the image of an element.
proof fn lemma_map_values_contains<A, B>(s: Seq<A>, f: spec_fn(A) -> B, x: B)
    ensures
        s.map_values(f).contains(x) <==> exists|k: int| 0 <= k < s.len() && x == f(s[k]),
{
    let m = s.map_values(f);
    if m.contains(x) {
        let k = choose|k: int| 0 <= k < m.len() && m[k] == x;
        assert(x == f(s[k]));
    }
    if exists|k: int| 0 <= k < s.len() && x == f(s[k]) {
        let k = choose|k: int| 0 <= k < s.len() && x == f(s[k]);
        assert(m[k] == x);
    }
}

/// The detail of a list is its entry among the lists with their totals: an
/// entry with a given id is there exactly when a list has that id, and then
/// it is that list's summary; in a consistent store there is at most one.
pub proof fn law_detail_is_entry_of_lists(v: StoreView, id: i64)
    requires
        v.well_formed(),
    ensures
        forall|s: ItemListSummary|
            #[trigger] v.lists_with_stats().contains(s) && s.id == id <==> exists|k: int|
                0 <= k < v.lists.len() && v.lists[k].id == id && s == v.summary_of(v.lists[k]),
        forall|s1: ItemListSummary, s2: ItemListSummary|
            #[trigger] v.lists_with_stats().contains(s1) && #[trigger] v.lists_with_stats().contains(
                s2,
            ) && s1.id == id && s2.id == id ==> s1 == s2,
{
    broadcast use vstd::seq_lib::group_to_multiset_ensures;

    law_lists_with_stats(v);
    let mapped = v.lists.map_values(|l: ItemList| v.summary_of(l));
    assert forall|s: ItemListSummary| #[trigger] v.lists_with_stats().contains(s) <==> mapped.contains(
        s,
    ) by {
        assert(v.lists_with_stats().contains(s) <==> v.lists_with_stats().to_multiset().count(s) > 0);
        assert(mapped.contains(s) <==> mapped.to_multiset().count(s) > 0);
    }
    assert forall|s: ItemListSummary|
        #[trigger] v.lists_with_stats().contains(s) && s.id == id <==> exists|k: int|
            0 <= k < v.lists.len() && v.lists[k].id == id && s == v.summary_of(v.lists[k]) by {
        lemma_map_values_contains(v.lists, |l: ItemList| v.summary_of(l), s);
    }
    assert forall|s1: ItemListSummary, s2: ItemListSummary|
        #[trigger] v.lists_with_stats().contains(s1) && #[trigger] v.lists_with_stats().contains(s2)
            && s1.id == id && s2.id == id implies s1 == s2 by {
        lemma_map_values_contains(v.lists, |l: ItemList| v.summary_of(l), s1);
        lemma_map_values_contains(v.lists, |l: ItemList| v.summary_of(l), s2);
        let k1 = choose|k: int| 0 <= k < v.lists.len() && s1 == v.summary_of(v.lists[k]);
        let k2 = choose|k: int| 0 <= k < v.lists.len() && s2 == v.summary_of(v.lists[k]);
        if k1 != k2 {
            lemma_only_list_with_id(v.lists, k1);
        }
    }
}

/// How often a row appears in the archive of a list compared with the
/// overall archive, before sorting.
proof fn lemma_archive_rows_counts(
    v: StoreView,
    records: Seq<PurchaseRecord>,
    list_id: i64,
    a: ArchivedItem,
)
    ensures
        v.archive_rows(records, Some(list_id)).to_multiset().count(a) == if a.item.list_id
            == list_id {
            v.archive_rows(records, None).to_multiset().count(a)
        } else {
            0
        },
    decreases records.len(),
{
    broadcast use vstd::seq_lib::group_to_multiset_ensures;
    broadcast use vstd::multiset::group_multiset_axioms;

    if records.len() == 0 {
        assert(v.archive_rows(records, Some(list_id)) =~= Seq::<ArchivedItem>::empty());
        assert(v.archive_rows(records, None) =~= Seq::<ArchivedItem>::empty());
    } else {
        lemma_archive_rows_counts(v, records.drop_last(), list_id, a);
    }
}

/// The archive of a list holds each purchase of that list exactly as many
/// times as the overall archive does, and nothing else: it is the overall
/// archive restricted to the list, up to order (and both are sorted the same
/// way).
pub proof fn law_list_archive_counts(v: StoreView, list_id: i64, a: ArchivedItem)
    ensures
        v.archive(Some(list_id)).to_multiset().count(a) == if a.item.list_id == list_id {
            v.archive(None).to_multiset().count(a)
        } else {
            0
        },
{
    lemma_orders_are_strict_weak();
    lemma_sort_by(v.archive_rows(v.records, Some(list_id)), archive_order());
    lemma_sort_by(v.archive_rows(v.records, None), archive_order());
    lemma_archive_rows_counts(v, v.records, list_id, a);
}

/// A double sum can be taken in either order.
pub proof fn lemma_sum_swap<A, B>(s: Seq<A>, t: Seq<B>, f: spec_fn(A, B) -> int)
    ensures
        sum_of(s, |x: A| sum_of(t, |y: B| f(x, y))) == sum_of(t, |y: B| sum_of(s, |x: A| f(x, y))),
    decreases s.len(),
{
    if s.len() == 0 {
        lemma_sum_of_ext(t, |y: B| sum_of(s, |x: A| f(x, y)), |y: B| 0int);
        lemma_sum_zero(t);
    } else {
        let s2 = s.drop_last();
        let x0 = s.last();
        lemma_sum_swap(s2, t, f);
        lemma_sum_of_add(t, |y: B| sum_of(s2, |x: A| f(x, y)), |y: B| f(x0, y));
        lemma_sum_of_ext(
            t,
            |y: B| sum_of(s, |x: A| f(x, y)),
            |y: B| (|y: B| sum_of(s2, |x: A| f(x, y)))(y) + (|y: B| f(x0, y))(y),
        );
    }
}

/// With unique ids, summing a weight over the rows with a given id picks
/// the row that a lookup by that id finds.
proof fn lemma_sum_select_by_id(items: Seq<WishItem>, id: i64, h: spec_fn(WishItem) -> int)
    requires
        forall|i: int, j: int|
            0 <= i < j < items.len() ==> #[trigger] items[i].id != #[trigger] items[j].id,
    ensures
        sum_of(
            items,
            |w: WishItem|
                if w.id == id {
                    h(w)
                } else {
                    0
                },
        ) == match item_of(items, id) {
            Some(w) => h(w),
            None => 0,
        },
    decreases items.len(),
{
    if items.len() > 0 {
        let t = items.drop_last();
        assert forall|i: int, j: int| 0 <= i < j < t.len() implies #[trigger] t[i].id
            != #[trigger] t[j].id by {
            assert(t[i] == items[i] && t[j] == items[j]);
        }
        lemma_sum_select_by_id(t, id, h);
        if items.last().id == id {
            // no earlier row has the id, so the earlier rows add nothing
            lemma_item_of(t, id);
            if let Some(w) = item_of(t, id) {
                let k = choose|k: int| 0 <= k < t.len() && t[k] == w;
                assert(items[k].id == items[items.len() - 1].id);
            }
        }
    }
}

/// The number of rows of the archive: one for each record whose item is
/// purchased and in scope.
proof fn lemma_archive_rows_len(v: StoreView, records: Seq<PurchaseRecord>, scope: Option<i64>)
    ensures
        v.archive_rows(records, scope).len() == sum_of(
            records,
            |r: PurchaseRecord|
                match item_of(v.items, r.item_id) {
                    Some(w) => if w.status == ItemStatus::Purchased && in_scope(w.list_id, scope) {
                        1int
                    } else {
                        0int
                    },
                    None => 0int,
                },
        ),
    decreases records.len(),
{
    if records.len() > 0 {
        lemma_archive_rows_len(v, records.drop_last(), scope);
    }
}

/// When every purchased item has exactly one purchase record, the purchased
/// count of a list (or of all lists) is the number of rows of its archive.
pub proof fn law_purchased_count_is_archive_length(v: StoreView, scope: Option<i64>)
    requires
        v.well_formed(),
        v.one_record_per_purchase(),
    ensures
        v.purchased_count(scope) == v.archive(scope).len(),
{
    let g = |w: WishItem, r: PurchaseRecord|
        if r.item_id == w.id && w.status == ItemStatus::Purchased && in_scope(w.list_id, scope) {
            1int
        } else {
            0int
        };
    let h = |w: WishItem|
        if w.status == ItemStatus::Purchased && in_scope(w.list_id, scope) {
            1int
        } else {
            0int
        };
    // each purchased item in scope stands for its one record
    assert forall|w: WishItem| v.items.contains(w) implies purchased_weight(scope)(w) == (|w: WishItem|
        sum_of(v.records, |r: PurchaseRecord| g(w, r)))(w) by {
        let k = choose|k: int| 0 <= k < v.items.len() && v.items[k] == w;
        if h(w) == 1 {
            assert(v.items[k].status == ItemStatus::Purchased);
            lemma_sum_of_ext(
                v.records,
                |r: PurchaseRecord| g(w, r),
                |r: PurchaseRecord|
                    if r.item_id == w.id {
                        1int
                    } else {
                        0int
                    },
            );
        } else {
            lemma_sum_of_ext(v.records, |r: PurchaseRecord| g(w, r), |r: PurchaseRecord| 0int);
            lemma_sum_zero(v.records);
        }
    }
    lemma_sum_of_ext(
        v.items,
        purchased_weight(scope),
        |w: WishItem| sum_of(v.records, |r: PurchaseRecord| g(w, r)),
    );
    lemma_sum_swap(v.items, v.records, g);
    // for each record, the items add up to the one its id finds
    lemma_list_ids_distinct(v);
    assert forall|i: int, j: int| 0 <= i < j < v.items.len() implies #[trigger] v.items[i].id
        != #[trigger] v.items[j].id by {
        lemma_only_item_with_id(v.items, j);
    }
    let row = |r: PurchaseRecord|
        match item_of(v.items, r.item_id) {
            Some(w) => if w.status == ItemStatus::Purchased && in_scope(w.list_id, scope) {
                1int
            } else {
                0int
            },
            None => 0int,
        };
    assert forall|r: PurchaseRecord| v.records.contains(r) implies (|r: PurchaseRecord|
        sum_of(v.items, |w: WishItem| g(w, r)))(r) == row(r) by {
        lemma_sum_select_by_id(v.items, r.item_id, h);
        lemma_sum_of_ext(
            v.items,
            |w: WishItem| g(w, r),
            |w: WishItem|
                if w.id == r.item_id {
                    h(w)
                } else {
                    0
                },
        );
    }
    lemma_sum_of_ext(v.records, |r: PurchaseRecord| sum_of(v.items, |w: WishItem| g(w, r)), row);
    lemma_archive_rows_len(v, v.records, scope);
    lemma_orders_are_strict_weak();
    lemma_sort_by(v.archive_rows(v.records, scope), archive_order());
}

/// Deleting an item removes exactly the purchase records whose item is that
/// item: every other record stays, whatever its own id, and no record of the
/// deleted item is left.
pub proof fn law_delete_keeps_other_records(v: StoreView, id: i64)
    ensures
        forall|r: PurchaseRecord|
            #[trigger] filter_seq(v.records, record_not_of(id)).contains(r) <==> v.records.contains(r)
                && r.item_id != id,
{
    assert forall|r: PurchaseRecord|
        #[trigger] filter_seq(v.records, record_not_of(id)).contains(r) <==> v.records.contains(r)
            && r.item_id != id by {
        lemma_filter_seq_contains(v.records, record_not_of(id), r);
    }
}

/// The active items of a list come by the product of want and need level,
/// largest first; among items with equal products the later created come
/// first.
pub proof fn law_active_items_by_priority(v: StoreView, list_id: i64)
    ensures
        forall|i: int, j: int|
            0 <= i < j < v.active_items(list_id).len() ==> {
                let a = #[trigger] v.active_items(list_id)[i];
                let b = #[trigger] v.active_items(list_id)[j];
                &&& a.want_level * a.need_level >= b.want_level * b.need_level
                &&& a.want_level * a.need_level == b.want_level * b.need_level ==> !text_lt(
                    a.created_at,
                    b.created_at,
                )
            },
{
    lemma_orders_are_strict_weak();
    lemma_sort_by(filter_seq(v.items, active_in(list_id)), item_order());
}

/// The archive comes by time of purchase, the most recent first: no purchase
/// is listed ahead of a later one.
pub proof fn law_archive_newest_first(v: StoreView, scope: Option<i64>)
    ensures
        forall|i: int, j: int|
            0 <= i < j < v.archive(scope).len() ==> !text_lt(
                (#[trigger] v.archive(scope)[i]).record.purchased_at,
                (#[trigger] v.archive(scope)[j]).record.purchased_at,
            ),
{
    lemma_orders_are_strict_weak();
    lemma_sort_by(v.archive_rows(v.records, scope), archive_order());
}

/// The lists come by creation time, the oldest first: no list is listed
/// ahead of one created earlier.
pub proof fn law_lists_oldest_first(v: StoreView)
    ensures
        forall|i: int, j: int|
            0 <= i < j < v.lists_with_stats().len() ==> !text_lt(
                (#[trigger] v.lists_with_stats()[j]).created_at,
                (#[trigger] v.lists_with_stats()[i]).created_at,
            ),
{
    lemma_orders_are_strict_weak();
    lemma_sort_by(v.lists.map_values(|l: ItemList| v.summary_of(l)), summary_order());
}

/// An edit gives the item exactly the given name, cost and levels (a cost of
/// `None` clears the estimate), and empty texts become absent; the id, list,
/// status and creation time stay.
pub proof fn law_edit_sets_fields(
    w: WishItem,
    name: String,
    description: String,
    estimated_cost: Option<i64>,
    want_level: i64,
    need_level: i64,
    where_to_buy: String,
    category: String,
    notes: String,
)
    ensures
        ({
            let e = edited_item(
                w,
                name,
                description,
                estimated_cost,
                want_level,
                need_level,
                where_to_buy,
                category,
                notes,
            );
            &&& e.name == name
            &&& e.estimated_cost == estimated_cost
            &&& e.want_level == want_level
            &&& e.need_level == need_level
            &&& (description@.len() == 0 <==> e.description is None)
            &&& (e.description matches Some(d) ==> d == description)
            &&& (where_to_buy@.len() == 0 <==> e.where_to_buy is None)
            &&& (e.where_to_buy matches Some(d) ==> d == where_to_buy)
            &&& (category@.len() == 0 <==> e.category is None)
            &&& (e.category matches Some(d) ==> d == category)
            &&& (notes@.len() == 0 <==> e.notes is None)
            &&& (e.notes matches Some(d) ==> d == notes)
            &&& e.id == w.id
            &&& e.list_id == w.list_id
            &&& e.status == w.status
            &&& e.created_at == w.created_at
        }),
{
}

/// Summing a weight over the elements that pass a test is summing it over
/// the filtered sequence.
proof fn lemma_sum_of_filter<A>(s: Seq<A>, p: spec_fn(A) -> bool, f: spec_fn(A) -> int)
    ensures
        sum_of(
            s,
            |x: A|
                if p(x) {
                    f(x)
                } else {
                    0int
                },
        ) == sum_of(filter_seq(s, p), f),
    decreases s.len(),
{
    if s.len() > 0 {
        lemma_sum_of_filter(s.drop_last(), p, f);
        if p(s.last()) {
            let t = filter_seq(s.drop_last(), p);
            assert(t.push(s.last()).drop_last() =~= t);
        }
    }
}

/// A sum of ones counts the elements.
proof fn lemma_sum_of_ones<A>(s: Seq<A>)
    ensures
        sum_of(s, |x: A| 1int) == s.len(),
    decreases s.len(),
{
    if s.len() > 0 {
        lemma_sum_of_ones(s.drop_last());
    }
}

/// The active count of a list is the number of items its active listing
/// shows, and its pending budget is the sum of their estimated costs (an
/// item without an estimate counting zero).
pub proof fn law_list_totals_match_active_items(v: StoreView, list_id: i64)
    ensures
        v.active_count(Some(list_id)) == v.active_items(list_id).len(),
        v.pending_budget(Some(list_id)) == sum_of(
            v.active_items(list_id),
            |w: WishItem|
                match w.estimated_cost {
                    Some(c) => c as int,
                    None => 0int,
                },
        ),
{
    let p = active_in(list_id);
    let one = |w: WishItem| 1int;
    let cost = |w: WishItem|
        match w.estimated_cost {
            Some(c) => c as int,
            None => 0int,
        };
    let f = filter_seq(v.items, p);
    lemma_sum_of_ext(
        v.items,
        active_weight(Some(list_id)),
        |w: WishItem|
            if p(w) {
                one(w)
            } else {
                0int
            },
    );
    lemma_sum_of_filter(v.items, p, one);
    lemma_sum_of_ones(f);
    lemma_sum_of_sort_by(f, item_order(), one);
    lemma_sum_of_ones(v.active_items(list_id));
    lemma_sum_of_ext(
        v.items,
        budget_weight(Some(list_id)),
        |w: WishItem|
            if p(w) {
                cost(w)
            } else {
                0int
            },
    );
    lemma_sum_of_filter(v.items, p, cost);
    lemma_sum_of_sort_by(f, item_order(), cost);
}

/// A created item has exactly the given id, list, name, cost, levels and
/// creation time, empty texts become absent, and it starts active.
pub proof fn law_new_item_fields(
    id: i64,
    list_id: i64,
    name: String,
    description: String,
    estimated_cost: Option<i64>,
    want_level: i64,
    need_level: i64,
    where_to_buy: String,
    category: String,
    notes: String,
    created_at: String,
)
    ensures
        ({
            let w = new_item_row(
                id,
                list_id,
                name,
                description,
                estimated_cost,
                want_level,
                need_level,
                where_to_buy,
                category,
                notes,
                created_at,
            );
            &&& w.id == id
            &&& w.list_id == list_id
            &&& w.name == name
            &&& w.estimated_cost == estimated_cost
            &&& w.want_level == want_level
            &&& w.need_level == need_level
            &&& w.created_at == created_at
            &&& w.status == ItemStatus::Active
            &&& (description@.len() == 0 <==> w.description is None)
            &&& (w.description matches Some(d) ==> d == description)
            &&& (where_to_buy@.len() == 0 <==> w.where_to_buy is None)
            &&& (w.where_to_buy matches Some(d) ==> d == where_to_buy)
            &&& (category@.len() == 0 <==> w.category is None)
            &&& (w.category matches Some(d) ==> d == category)
            &&& (notes@.len() == 0 <==> w.notes is None)
            &&& (w.notes matches Some(d) ==> d == notes)
        }),
{
}

/// A purchase record holds exactly the given id, item, paid cost and time of
/// purchase; empty notes become absent.
pub proof fn law_new_record_fields(
    id: i64,
    item_id: i64,
    actual_cost: Option<i64>,
    notes: String,
    purchased_at: String,
)
    ensures
        ({
            let r = new_record_row(id, item_id, actual_cost, notes, purchased_at);
            &&& r.id == id
            &&& r.item_id == item_id
            &&& r.actual_cost == actual_cost
            &&& r.purchased_at == purchased_at
            &&& (notes@.len() == 0 <==> r.notes is None)
            &&& (r.notes matches Some(d) ==> d == notes)
        }),
{
}

/// The largest id is zero for an empty table, and else one of the ids when
/// they are all positive.
proof fn lemma_max_id_attained(ids: Seq<i64>)
    ensures
        ids.len() == 0 ==> max_id(ids) == 0,
        ids.len() > 0 && (forall|i: int| 0 <= i < ids.len() ==> #[trigger] ids[i] > 0) ==> exists|
            k: int,
        |
            0 <= k < ids.len() && #[trigger] ids[k] == max_id(ids),
    decreases ids.len(),
{
    if ids.len() > 0 {
        let t = ids.drop_last();
        lemma_max_id_attained(t);
        if forall|i: int| 0 <= i < ids.len() ==> #[trigger] ids[i] > 0 {
            if ids.last() > max_id(t) {
                assert(ids[ids.len() - 1] == max_id(ids));
            } else if t.len() == 0 {
                assert(ids[0] > 0);
                assert(false);
            } else {
                assert forall|i: int| 0 <= i < t.len() implies #[trigger] t[i] > 0 by {
                    assert(t[i] == ids[i]);
                }
                let k = choose|k: int| 0 <= k < t.len() && #[trigger] t[k] == max_id(t);
                assert(ids[k] == t[k]);
            }
        }
    }
}

/// The next id of each table is one above the largest id in it: 1 for an
/// empty table, and else an existing id plus one (so it exceeds them all).
pub proof fn law_next_ids_are_one_above_largest(v: StoreView)
    requires
        v.well_formed(),
    ensures
        v.lists.len() == 0 ==> v.next_list_id() == 1,
        v.lists.len() > 0 ==> exists|k: int|
            0 <= k < v.lists.len() && v.next_list_id() == #[trigger] v.lists[k].id + 1,
        v.items.len() == 0 ==> v.next_item_id() == 1,
        v.items.len() > 0 ==> exists|k: int|
            0 <= k < v.items.len() && v.next_item_id() == #[trigger] v.items[k].id + 1,
        v.records.len() == 0 ==> v.next_record_id() == 1,
        v.records.len() > 0 ==> exists|k: int|
            0 <= k < v.records.len() && v.next_record_id() == #[trigger] v.records[k].id + 1,
{
    lemma_max_id_attained(list_ids(v.lists));
    lemma_max_id_attained(item_ids(v.items));
    lemma_max_id_attained(record_ids(v.records));
    if v.lists.len() > 0 {
        let k = choose|k: int| 0 <= k < v.lists.len() && #[trigger] list_ids(v.lists)[k] == max_id(
            list_ids(v.lists),
        );
        assert(list_ids(v.lists)[k] == v.lists[k].id);
    }
    if v.items.len() > 0 {
        let k = choose|k: int| 0 <= k < v.items.len() && #[trigger] item_ids(v.items)[k] == max_id(
            item_ids(v.items),
        );
        assert(item_ids(v.items)[k] == v.items[k].id);
    }
    if v.records.len() > 0 {
        let k = choose|k: int|
            0 <= k < v.records.len() && #[trigger] record_ids(v.records)[k] == max_id(
                record_ids(v.records),
            );
        assert(record_ids(v.records)[k] == v.records[k].id);
    }
}

} // verus!
