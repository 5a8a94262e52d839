//! The meaning of the store: its tables as sequences, what keeps them
//! consistent, and what each query returns.

use vstd::prelude::*;
use crate::model::{ArchivedItem, ItemList, ItemListSummary, ItemStatus, PurchaseRecord, WishItem};
use crate::sort::{is_strict_weak_order, sort_by};
use crate::text::{lemma_text_order, none_if_empty_spec, text_lt};

verus! {

/// The three tables, each in the order in which its rows were inserted.
pub struct StoreView {
    pub lists: Seq<ItemList>,
    pub items: Seq<WishItem>,
    pub records: Seq<PurchaseRecord>,
}

/// A cost in cents, where a missing cost counts as zero.
pub open spec fn cents(c: Option<i64>) -> int {
    match c {
        Some(v) => v as int,
        None => 0,
    }
}

/// The sum of `f` over the elements of `s`.
pub open spec fn sum_of<A>(s: Seq<A>, f: spec_fn(A) -> int) -> int
    decreases s.len(),
{
    if s.len() == 0 {
        0
    } else {
        sum_of(s.drop_last(), f) + f(s.last())
    }
}

/// The elements of `s` that satisfy `p`, in their order.
pub open spec fn filter_seq<A>(s: Seq<A>, p: spec_fn(A) -> bool) -> Seq<A>
    decreases s.len(),
{
    if s.len() == 0 {
        Seq::empty()
    } else if p(s.last()) {
        filter_seq(s.drop_last(), p).push(s.last())
    } else {
        filter_seq(s.drop_last(), p)
    }
}

/// An element of `t.push(y)` is `y` or an element of `t`.
pub proof fn lemma_push_contains<A>(t: Seq<A>, y: A, x: A)
    ensures
        t.push(y).contains(x) <==> t.contains(x) || x == y,
{
    let u = t.push(y);
    if t.contains(x) {
        let k = choose|k: int| 0 <= k < t.len() && t[k] == x;
        assert(u[k] == x);
    }
    if x == y {
        assert(u[t.len() as int] == x);
    }
    if u.contains(x) && x != y {
        let k = choose|k: int| 0 <= k < u.len() && u[k] == x;
        assert(k < t.len());
        assert(t[k] == x);
    }
}

/// The filtered sequence holds exactly the elements of `s` that satisfy `p`.
pub proof fn lemma_filter_seq_contains<A>(s: Seq<A>, p: spec_fn(A) -> bool, x: A)
    ensures
        filter_seq(s, p).contains(x) <==> s.contains(x) && p(x),
    decreases s.len(),
{
    if s.len() == 0 {
        assert(!s.contains(x));
        assert(!filter_seq(s, p).contains(x));
    } else {
        let t = s.drop_last();
        lemma_filter_seq_contains(t, p, x);
        assert(s =~= t.push(s.last()));
        lemma_push_contains(t, s.last(), x);
        lemma_push_contains(filter_seq(t, p), s.last(), x);
    }
}

/// Filtering keeps ids positive and distinct.
pub proof fn lemma_filter_seq_ids<A>(s: Seq<A>, p: spec_fn(A) -> bool, key: spec_fn(A) -> i64)
    requires
        ids_well_formed(s.map_values(key)),
    ensures
        ids_well_formed(filter_seq(s, p).map_values(key)),
    decreases s.len(),
{
    if s.len() > 0 {
        let t = s.drop_last();
        assert(t.map_values(key) =~= s.map_values(key).drop_last());
        assert(ids_well_formed(t.map_values(key))) by {
            let a = t.map_values(key);
            let b = s.map_values(key);
            assert forall|i: int| 0 <= i < a.len() implies #[trigger] a[i] > 0 by {
                assert(a[i] == b[i]);
            }
            assert forall|i: int, j: int| 0 <= i < j < a.len() implies #[trigger] a[i]
                != #[trigger] a[j] by {
                assert(a[i] == b[i] && a[j] == b[j]);
            }
        }
        lemma_filter_seq_ids(t, p, key);
        if p(s.last()) {
            let f = filter_seq(t, p);
            let fm = f.push(s.last()).map_values(key);
            let b = s.map_values(key);
            assert forall|i: int| 0 <= i < fm.len() implies #[trigger] fm[i] > 0 by {
                if i < f.len() {
                    assert(fm[i] == f.map_values(key)[i]);
                } else {
                    assert(fm[i] == b[s.len() - 1]);
                }
            }
            assert forall|i: int, j: int| 0 <= i < j < fm.len() implies #[trigger] fm[i]
                != #[trigger] fm[j] by {
                if j < f.len() {
                    assert(fm[i] == f.map_values(key)[i] && fm[j] == f.map_values(key)[j]);
                } else {
                    lemma_filter_seq_contains(t, p, f[i]);
                    assert(f.contains(f[i]));
                    let k = choose|k: int| 0 <= k < t.len() && t[k] == f[i];
                    assert(b[k] == key(f[i]));
                    assert(b[s.len() - 1] == key(s.last()));
                }
            }
        }
    }
}

/// The item that a lookup by id finds is an item of the table with that id,
/// and an id of the table is always found.
pub proof fn lemma_item_of(items: Seq<WishItem>, id: i64)
    ensures
        item_of(items, id) matches Some(w) ==> items.contains(w) && w.id == id,
        has_item(items, id) ==> item_of(items, id) is Some,
    decreases items.len(),
{
    if items.len() > 0 {
        let t = items.drop_last();
        lemma_item_of(t, id);
        if let Some(w) = item_of(t, id) {
            let k = choose|k: int| 0 <= k < t.len() && t[k] == w;
            assert(items[k] == w);
        }
        assert(items[items.len() - 1] == items.last());
        if has_item(items, id) && items.last().id != id {
            let k = choose|k: int| 0 <= k < items.len() && #[trigger] items[k].id == id;
            assert(t[k] == items[k]);
        }
    }
}

/// A lookup by an id other than that of an appended item finds what it found before.
pub proof fn lemma_item_of_push(items: Seq<WishItem>, row: WishItem, id: i64)
    ensures
        item_of(items.push(row), id) == if row.id == id {
            Some(row)
        } else {
            item_of(items, id)
        },
{
    assert(items.push(row).drop_last() =~= items);
}

/// Lookups in two tables whose rows have the same ids, row by row, find
/// rows at the same position.
pub proof fn lemma_item_of_same_rows(a: Seq<WishItem>, b: Seq<WishItem>, id: i64)
    requires
        a.len() == b.len(),
        forall|j: int| 0 <= j < a.len() ==> #[trigger] a[j].id == b[j].id,
    ensures
        item_of(a, id) is Some <==> item_of(b, id) is Some,
        item_of(a, id) is Some ==> exists|j: int|
            0 <= j < a.len() && item_of(a, id) == Some(a[j]) && item_of(b, id) == Some(#[trigger] b[j]),
    decreases a.len(),
{
    if a.len() > 0 {
        let n = a.len() - 1;
        assert(a[n].id == b[n].id);
        if a.last().id != id {
            lemma_item_of_same_rows(a.drop_last(), b.drop_last(), id);
            if item_of(a, id) is Some {
                let j = choose|j: int|
                    0 <= j < a.drop_last().len() && item_of(a.drop_last(), id) == Some(
                        a.drop_last()[j],
                    ) && item_of(b.drop_last(), id) == Some(#[trigger] b.drop_last()[j]);
                assert(a[j] == a.drop_last()[j] && b[j] == b.drop_last()[j]);
            }
        } else {
            assert(item_of(b, id) == Some(b[n]));
        }
    }
}

/// Filtering out the item with one id leaves the lookups of other ids as they were.
pub proof fn lemma_item_of_filter(items: Seq<WishItem>, removed: i64, id: i64)
    requires
        id != removed,
    ensures
        item_of(filter_seq(items, item_other_than(removed)), id) == item_of(items, id),
    decreases items.len(),
{
    if items.len() > 0 {
        lemma_item_of_filter(items.drop_last(), removed, id);
        let f = filter_seq(items.drop_last(), item_other_than(removed));
        if items.last().id != removed {
            assert(f.push(items.last()).drop_last() =~= f);
        }
    }
}

/// How many purchase records belong to the item with the given id.
pub open spec fn record_count(records: Seq<PurchaseRecord>, item_id: i64) -> int {
    sum_of(
        records,
        |r: PurchaseRecord|
            if r.item_id == item_id {
                1int
            } else {
                0int
            },
    )
}

/// `None` stands for all lists, `Some(id)` for the list with that id.
pub open spec fn in_scope(list_id: i64, scope: Option<i64>) -> bool {
    match scope {
        None => true,
        Some(l) => list_id == l,
    }
}

pub open spec fn has_list(lists: Seq<ItemList>, id: i64) -> bool {
    exists|k: int| 0 <= k < lists.len() && #[trigger] lists[k].id == id
}

pub open spec fn has_item(items: Seq<WishItem>, id: i64) -> bool {
    exists|k: int| 0 <= k < items.len() && #[trigger] items[k].id == id
}

/// The item with the given id (the last one, should the id repeat).
pub open spec fn item_of(items: Seq<WishItem>, id: i64) -> Option<WishItem>
    decreases items.len(),
{
    if items.len() == 0 {
        None
    } else if items.last().id == id {
        Some(items.last())
    } else {
        item_of(items.drop_last(), id)
    }
}

/// Largest id of a table, or 0 for an empty one.
pub open spec fn max_id(ids: Seq<i64>) -> int
    decreases ids.len(),
{
    if ids.len() == 0 {
        0
    } else {
        let m = max_id(ids.drop_last());
        if ids.last() > m {
            ids.last() as int
        } else {
            m
        }
    }
}

pub open spec fn list_ids(lists: Seq<ItemList>) -> Seq<i64> {
    lists.map_values(|l: ItemList| l.id)
}

pub open spec fn item_ids(items: Seq<WishItem>) -> Seq<i64> {
    items.map_values(|w: WishItem| w.id)
}

pub open spec fn record_ids(records: Seq<PurchaseRecord>) -> Seq<i64> {
    records.map_values(|r: PurchaseRecord| r.id)
}

/// Every id is positive and no id repeats.
pub open spec fn ids_well_formed(ids: Seq<i64>) -> bool {
    &&& forall|i: int| 0 <= i < ids.len() ==> #[trigger] ids[i] > 0
    &&& forall|i: int, j: int| 0 <= i < j < ids.len() ==> #[trigger] ids[i] != #[trigger] ids[j]
}

impl StoreView {
    /// The consistency that the tables keep: ids are positive and unique in
    /// each table, every item belongs to an existing list and every purchase
    /// record to an existing item.
    pub open spec fn well_formed(self) -> bool {
        &&& ids_well_formed(list_ids(self.lists))
        &&& ids_well_formed(item_ids(self.items))
        &&& ids_well_formed(record_ids(self.records))
        &&& self.references_resolved()
    }

    /// Every item belongs to an existing list and every purchase record to an
    /// existing item.
    pub open spec fn references_resolved(self) -> bool {
        &&& forall|i: int|
            0 <= i < self.items.len() ==> has_list(self.lists, #[trigger] self.items[i].list_id)
        &&& forall|i: int|
            0 <= i < self.records.len() ==> has_item(
                self.items,
                #[trigger] self.records[i].item_id,
            )
    }

    /// Every purchase record belongs to an item that is marked as purchased.
    /// The operations keep this; rows read back from storage need not have it.
    pub open spec fn purchases_have_purchased_items(self) -> bool {
        forall|i: int|
            0 <= i < self.records.len() ==> match item_of(self.items, #[trigger] self.records[i].item_id) {
                Some(w) => w.status == ItemStatus::Purchased,
                None => false,
            }
    }

    /// Every purchased item has exactly one purchase record.
    pub open spec fn one_record_per_purchase(self) -> bool {
        forall|k: int|
            0 <= k < self.items.len() && #[trigger] self.items[k].status == ItemStatus::Purchased
                ==> record_count(self.records, self.items[k].id) == 1
    }

    /// The id that the next list receives.
    pub open spec fn next_list_id(self) -> int {
        max_id(list_ids(self.lists)) + 1
    }

    pub open spec fn next_item_id(self) -> int {
        max_id(item_ids(self.items)) + 1
    }

    pub open spec fn next_record_id(self) -> int {
        max_id(record_ids(self.records)) + 1
    }

    /// `new` is `self` with one list appended: the given id, name and creation time.
    pub open spec fn list_added(
        self,
        new: StoreView,
        id: i64,
        name: Seq<char>,
        created_at: String,
    ) -> bool {
        &&& new.lists.len() == self.lists.len() + 1
        &&& new.lists.drop_last() == self.lists
        &&& new.lists.last().id == id
        &&& new.lists.last().name@ == name
        &&& new.lists.last().created_at == created_at
        &&& new.items == self.items
        &&& new.records == self.records
    }

    /// `new` is `self` with the list of the given id renamed.
    pub open spec fn list_renamed(self, new: StoreView, id: i64, name: Seq<char>) -> bool {
        &&& new.lists.len() == self.lists.len()
        &&& forall|j: int|
            0 <= j < self.lists.len() ==> {
                let (a, b) = (#[trigger] self.lists[j], new.lists[j]);
                if a.id == id {
                    &&& b.id == a.id
                    &&& b.name@ == name
                    &&& b.created_at == a.created_at
                } else {
                    b == a
                }
            }
        &&& new.items == self.items
        &&& new.records == self.records
    }

    /// `new` has the same items as `self`, except that those with the given
    /// id are purchased.
    pub open spec fn items_marked_purchased(self, new: StoreView, id: i64) -> bool {
        &&& new.items.len() == self.items.len()
        &&& forall|j: int|
            0 <= j < self.items.len() ==> #[trigger] new.items[j] == if self.items[j].id == id {
                WishItem { status: ItemStatus::Purchased, ..self.items[j] }
            } else {
                self.items[j]
            }
    }

    /// `new` has the same items as `self`, except that those with the given
    /// id belong to the target list.
    pub open spec fn items_moved(self, new: StoreView, id: i64, target_list_id: i64) -> bool {
        &&& new.items.len() == self.items.len()
        &&& forall|j: int|
            0 <= j < self.items.len() ==> #[trigger] new.items[j] == if self.items[j].id == id {
                WishItem { list_id: target_list_id, ..self.items[j] }
            } else {
                self.items[j]
            }
    }

    /// Number of active items in scope.
    pub open spec fn active_count(self, scope: Option<i64>) -> int {
        sum_of(self.items, active_weight(scope))
    }

    /// Number of purchased items in scope.
    pub open spec fn purchased_count(self, scope: Option<i64>) -> int {
        sum_of(self.items, purchased_weight(scope))
    }

    /// Sum of the estimated costs of the active items in scope.
    pub open spec fn pending_budget(self, scope: Option<i64>) -> int {
        sum_of(self.items, budget_weight(scope))
    }

    /// Whether a purchase record counts for the scope: all of them for all
    /// lists, else those whose item belongs to the list.
    pub open spec fn record_in_scope(self, r: PurchaseRecord, scope: Option<i64>) -> bool {
        match scope {
            None => true,
            Some(l) => match item_of(self.items, r.item_id) {
                Some(w) => w.list_id == l,
                None => false,
            },
        }
    }

    /// The paid cost of a record that counts for the scope, else zero.
    pub open spec fn spent_weight(self, scope: Option<i64>) -> spec_fn(PurchaseRecord) -> int {
        |r: PurchaseRecord|
            if self.record_in_scope(r, scope) {
                cents(r.actual_cost)
            } else {
                0int
            }
    }

    /// Sum of the paid costs of the purchase records in scope.
    pub open spec fn total_spent(self, scope: Option<i64>) -> int {
        sum_of(self.records, self.spent_weight(scope))
    }

    /// The list with the given id, with its active count and estimated budget.
    pub open spec fn summary_of(self, l: ItemList) -> ItemListSummary {
        ItemListSummary {
            id: l.id,
            name: l.name,
            created_at: l.created_at,
            active_count: self.active_count(Some(l.id)) as u64,
            estimated_budget: self.pending_budget(Some(l.id)) as i128,
        }
    }

    /// All lists with their summaries, oldest list first.
    pub open spec fn lists_with_stats(self) -> Seq<ItemListSummary> {
        sort_by(self.lists.map_values(|l: ItemList| self.summary_of(l)), summary_order())
    }

    /// The active items of a list, most justified first.
    pub open spec fn active_items(self, list_id: i64) -> Seq<WishItem> {
        sort_by(
            filter_seq(self.items, active_in(list_id)),
            item_order(),
        )
    }

    /// Purchased items in scope joined with their purchase records, in the
    /// order of the records.
    pub open spec fn archive_rows(self, records: Seq<PurchaseRecord>, scope: Option<i64>) -> Seq<
        ArchivedItem,
    >
        decreases records.len(),
    {
        if records.len() == 0 {
            Seq::empty()
        } else {
            let r = records.last();
            let rest = self.archive_rows(records.drop_last(), scope);
            match item_of(self.items, r.item_id) {
                Some(w) => if w.status == ItemStatus::Purchased && in_scope(w.list_id, scope) {
                    rest.push(ArchivedItem { item: w, record: r })
                } else {
                    rest
                },
                None => rest,
            }
        }
    }

    /// The purchase history in scope, most recent purchase first.
    pub open spec fn archive(self, scope: Option<i64>) -> Seq<ArchivedItem> {
        sort_by(self.archive_rows(self.records, scope), archive_order())
    }
}

/// One for an active item in scope, else zero.
pub open spec fn active_weight(scope: Option<i64>) -> spec_fn(WishItem) -> int {
    |w: WishItem|
        if w.status == ItemStatus::Active && in_scope(w.list_id, scope) {
            1int
        } else {
            0int
        }
}

/// One for a purchased item in scope, else zero.
pub open spec fn purchased_weight(scope: Option<i64>) -> spec_fn(WishItem) -> int {
    |w: WishItem|
        if w.status == ItemStatus::Purchased && in_scope(w.list_id, scope) {
            1int
        } else {
            0int
        }
}

/// The estimated cost of an active item in scope, else zero.
pub open spec fn budget_weight(scope: Option<i64>) -> spec_fn(WishItem) -> int {
    |w: WishItem|
        if w.status == ItemStatus::Active && in_scope(w.list_id, scope) {
            cents(w.estimated_cost)
        } else {
            0int
        }
}

/// An active item of the given list.
pub open spec fn active_in(list_id: i64) -> spec_fn(WishItem) -> bool {
    |w: WishItem| w.status == ItemStatus::Active && w.list_id == list_id
}

/// The row that creating a wish item inserts.
pub open spec fn new_item_row(
    id: i64,
    list_id: i64,
    name: String,
    description: String,
    estimated_cost: Option<i64>,
    want_level: i64,
    need_level: i64,
    where_to_buy: String,
    category: String,
    notes: String,
    created_at: String,
) -> WishItem {
    WishItem {
        id,
        list_id,
        name,
        description: none_if_empty_spec(description),
        estimated_cost,
        want_level,
        need_level,
        where_to_buy: none_if_empty_spec(where_to_buy),
        category: none_if_empty_spec(category),
        notes: none_if_empty_spec(notes),
        status: ItemStatus::Active,
        created_at,
    }
}

/// The item after an edit: new fields, same id, list, status and creation time.
pub open spec fn edited_item(
    w: WishItem,
    name: String,
    description: String,
    estimated_cost: Option<i64>,
    want_level: i64,
    need_level: i64,
    where_to_buy: String,
    category: String,
    notes: String,
) -> WishItem {
    WishItem {
        name,
        description: none_if_empty_spec(description),
        estimated_cost,
        want_level,
        need_level,
        where_to_buy: none_if_empty_spec(where_to_buy),
        category: none_if_empty_spec(category),
        notes: none_if_empty_spec(notes),
        ..w
    }
}

/// The items that are not the one with the given id.
pub open spec fn item_other_than(id: i64) -> spec_fn(WishItem) -> bool {
    |w: WishItem| w.id != id
}

/// The purchase records that are not of the item with the given id.
pub open spec fn record_not_of(item_id: i64) -> spec_fn(PurchaseRecord) -> bool {
    |r: PurchaseRecord| r.item_id != item_id
}

/// The row that marking an item as purchased inserts.
pub open spec fn new_record_row(
    id: i64,
    item_id: i64,
    actual_cost: Option<i64>,
    notes: String,
    purchased_at: String,
) -> PurchaseRecord {
    PurchaseRecord { id, item_id, actual_cost, purchased_at, notes: none_if_empty_spec(notes) }
}

/// The priority of an item: its want level times its need level.
pub open spec fn priority(w: WishItem) -> int {
    w.want_level * w.need_level
}

/// Items of higher priority first; among equal priority, the later created first.
pub open spec fn item_before(a: WishItem, b: WishItem) -> bool {
    ||| priority(a) > priority(b)
    ||| priority(a) == priority(b) && text_lt(b.created_at, a.created_at)
}

pub open spec fn item_order() -> spec_fn(WishItem, WishItem) -> bool {
    |a: WishItem, b: WishItem| item_before(a, b)
}

/// Lists by creation time, oldest first.
pub open spec fn summary_before(a: ItemListSummary, b: ItemListSummary) -> bool {
    text_lt(a.created_at, b.created_at)
}

pub open spec fn summary_order() -> spec_fn(ItemListSummary, ItemListSummary) -> bool {
    |a: ItemListSummary, b: ItemListSummary| summary_before(a, b)
}

/// Purchases by time of purchase, most recent first.
pub open spec fn archive_before(a: ArchivedItem, b: ArchivedItem) -> bool {
    text_lt(b.record.purchased_at, a.record.purchased_at)
}

pub open spec fn archive_order() -> spec_fn(ArchivedItem, ArchivedItem) -> bool {
    |a: ArchivedItem, b: ArchivedItem| archive_before(a, b)
}

/// The three orders are strict weak orders, so sorting by them is meaningful.
pub proof fn lemma_orders_are_strict_weak()
    ensures
        is_strict_weak_order(item_order()),
        is_strict_weak_order(summary_order()),
        is_strict_weak_order(archive_order()),
{
    assert forall|a: WishItem| !#[trigger] item_order()(a, a) by {
        lemma_text_order(a.created_at, a.created_at, a.created_at);
    }
    assert forall|a: WishItem, b: WishItem, c: WishItem|
        #[trigger] item_order()(a, b) && #[trigger] item_order()(b, c) implies item_order()(
        a,
        c,
    ) by {
        lemma_text_order(c.created_at, b.created_at, a.created_at);
    }
    assert forall|a: WishItem, b: WishItem, c: WishItem|
        #[trigger] item_order()(a, b) implies item_order()(a, c) || #[trigger] item_order()(
        c,
        b,
    ) by {
        lemma_text_order(b.created_at, c.created_at, a.created_at);
        lemma_text_order(c.created_at, a.created_at, b.created_at);
        lemma_text_order(b.created_at, a.created_at, c.created_at);
    }
    assert forall|a: ItemListSummary| !#[trigger] summary_order()(a, a) by {
        lemma_text_order(a.created_at, a.created_at, a.created_at);
    }
    assert forall|a: ItemListSummary, b: ItemListSummary, c: ItemListSummary|
        #[trigger] summary_order()(a, b) && #[trigger] summary_order()(b, c) implies summary_order()(
        a,
        c,
    ) by {
        lemma_text_order(a.created_at, b.created_at, c.created_at);
    }
    assert forall|a: ItemListSummary, b: ItemListSummary, c: ItemListSummary|
        #[trigger] summary_order()(a, b) implies summary_order()(a, c) || #[trigger] summary_order()(
        c,
        b,
    ) by {
        lemma_text_order(a.created_at, c.created_at, b.created_at);
        lemma_text_order(c.created_at, a.created_at, b.created_at);
    }
    assert forall|a: ArchivedItem| !#[trigger] archive_order()(a, a) by {
        lemma_text_order(a.record.purchased_at, a.record.purchased_at, a.record.purchased_at);
    }
    assert forall|a: ArchivedItem, b: ArchivedItem, c: ArchivedItem|
        #[trigger] archive_order()(a, b) && #[trigger] archive_order()(b, c) implies archive_order()(
        a,
        c,
    ) by {
        lemma_text_order(c.record.purchased_at, b.record.purchased_at, a.record.purchased_at);
    }
    assert forall|a: ArchivedItem, b: ArchivedItem, c: ArchivedItem|
        #[trigger] archive_order()(a, b) implies archive_order()(a, c) || #[trigger] archive_order()(
        c,
        b,
    ) by {
        lemma_text_order(b.record.purchased_at, c.record.purchased_at, a.record.purchased_at);
        lemma_text_order(c.record.purchased_at, b.record.purchased_at, a.record.purchased_at);
    }
}

/// A new item whose id is not yet taken leaves every purchase with its item.
pub proof fn lemma_purchases_after_new_item(v: StoreView, row: WishItem)
    requires
        v.purchases_have_purchased_items(),
        !has_item(v.items, row.id),
    ensures
        (StoreView { items: v.items.push(row), ..v }).purchases_have_purchased_items(),
{
    let new = StoreView { items: v.items.push(row), ..v };
    assert forall|i: int| 0 <= i < new.records.len() implies match item_of(
        new.items,
        #[trigger] new.records[i].item_id,
    ) {
        Some(w) => w.status == ItemStatus::Purchased,
        None => false,
    } by {
        let id = v.records[i].item_id;
        lemma_item_of(v.items, id);
        let w = item_of(v.items, id)->0;
        let k = choose|k: int| 0 <= k < v.items.len() && v.items[k] == w;
        assert(v.items[k].id == id);
        lemma_item_of_push(v.items, row, id);
    }
}

/// Changing items without changing their ids or statuses leaves every
/// purchase with a purchased item.
pub proof fn lemma_purchases_same_ids_and_statuses(old: StoreView, new: StoreView)
    requires
        old.purchases_have_purchased_items(),
        new.records == old.records,
        new.items.len() == old.items.len(),
        forall|j: int|
            0 <= j < old.items.len() ==> (#[trigger] new.items[j]).id == old.items[j].id
                && new.items[j].status == old.items[j].status,
    ensures
        new.purchases_have_purchased_items(),
{
    assert forall|i: int| 0 <= i < new.records.len() implies match item_of(
        new.items,
        #[trigger] new.records[i].item_id,
    ) {
        Some(w) => w.status == ItemStatus::Purchased,
        None => false,
    } by {
        let id = old.records[i].item_id;
        lemma_item_of_same_rows(old.items, new.items, id);
        assert(item_of(old.items, id) is Some);
        let j = choose|j: int|
            0 <= j < old.items.len() && item_of(old.items, id) == Some(old.items[j]) && item_of(
                new.items,
                id,
            ) == Some(#[trigger] new.items[j]);
        assert(new.items[j].status == old.items[j].status);
    }
}

/// Marking an item and recording its purchase leaves every purchase with a
/// purchased item.
pub proof fn lemma_purchases_after_marking(
    old: StoreView,
    new: StoreView,
    id: i64,
    rec: PurchaseRecord,
)
    requires
        old.purchases_have_purchased_items(),
        old.items_marked_purchased(new, id),
        new.records == old.records.push(rec),
        rec.item_id == id,
        has_item(old.items, id),
    ensures
        new.purchases_have_purchased_items(),
{
    assert forall|i: int| 0 <= i < new.records.len() implies match item_of(
        new.items,
        #[trigger] new.records[i].item_id,
    ) {
        Some(w) => w.status == ItemStatus::Purchased,
        None => false,
    } by {
        let rid = new.records[i].item_id;
        lemma_item_of_same_rows(old.items, new.items, rid);
        if i < old.records.len() {
            assert(new.records[i] == old.records[i]);
            assert(item_of(old.items, rid) is Some);
        } else {
            let k = choose|k: int| 0 <= k < old.items.len() && #[trigger] old.items[k].id == id;
            assert(has_item(old.items, rid));
            lemma_item_of(old.items, rid);
        }
        let j = choose|j: int|
            0 <= j < old.items.len() && item_of(old.items, rid) == Some(old.items[j]) && item_of(
                new.items,
                rid,
            ) == Some(#[trigger] new.items[j]);
        lemma_item_of(old.items, rid);
        assert(new.items[j] == if old.items[j].id == id {
            WishItem { status: ItemStatus::Purchased, ..old.items[j] }
        } else {
            old.items[j]
        });
    }
}

/// Deleting an item with its purchases leaves every other purchase with a
/// purchased item.
pub proof fn lemma_purchases_after_delete(v: StoreView, id: i64)
    requires
        v.purchases_have_purchased_items(),
    ensures
        (StoreView {
            items: filter_seq(v.items, item_other_than(id)),
            records: filter_seq(v.records, record_not_of(id)),
            ..v
        }).purchases_have_purchased_items(),
{
    let new = StoreView {
        items: filter_seq(v.items, item_other_than(id)),
        records: filter_seq(v.records, record_not_of(id)),
        ..v
    };
    assert forall|i: int| 0 <= i < new.records.len() implies match item_of(
        new.items,
        #[trigger] new.records[i].item_id,
    ) {
        Some(w) => w.status == ItemStatus::Purchased,
        None => false,
    } by {
        let r = new.records[i];
        assert(new.records.contains(r));
        lemma_filter_seq_contains(v.records, record_not_of(id), r);
        let k = choose|k: int| 0 <= k < v.records.len() && v.records[k] == r;
        lemma_item_of_filter(v.items, id, r.item_id);
    }
}

/// When `new` keeps the ids of `old` at their positions (and may add rows),
/// every list found in `old` is found in `new`.
pub proof fn lemma_lists_keep_ids(old: Seq<ItemList>, new: Seq<ItemList>)
    requires
        old.len() <= new.len(),
        forall|k: int| 0 <= k < old.len() ==> #[trigger] new[k].id == old[k].id,
    ensures
        forall|id: i64| has_list(old, id) ==> #[trigger] has_list(new, id),
{
    assert forall|id: i64| has_list(old, id) implies #[trigger] has_list(new, id) by {
        let k = choose|k: int| 0 <= k < old.len() && #[trigger] old[k].id == id;
        assert(new[k].id == old[k].id);
    }
}

/// When `new` keeps the ids of `old` at their positions (and may add rows),
/// every item found in `old` is found in `new`.
pub proof fn lemma_items_keep_ids(old: Seq<WishItem>, new: Seq<WishItem>)
    requires
        old.len() <= new.len(),
        forall|k: int| 0 <= k < old.len() ==> #[trigger] new[k].id == old[k].id,
    ensures
        forall|id: i64| has_item(old, id) ==> #[trigger] has_item(new, id),
{
    assert forall|id: i64| has_item(old, id) implies #[trigger] has_item(new, id) by {
        let k = choose|k: int| 0 <= k < old.len() && #[trigger] old[k].id == id;
        assert(new[k].id == old[k].id);
    }
}

/// The references stay resolved when the lists and items keep their ids at
/// their positions, and every row that refers to something either refers
/// to what the row at its position in `old` referred to or to something
/// that exists in `new`.
pub proof fn lemma_references_kept(old: StoreView, new: StoreView)
    requires
        old.references_resolved(),
        old.lists.len() <= new.lists.len(),
        forall|k: int| 0 <= k < old.lists.len() ==> #[trigger] new.lists[k].id == old.lists[k].id,
        old.items.len() <= new.items.len(),
        forall|k: int| 0 <= k < old.items.len() ==> #[trigger] new.items[k].id == old.items[k].id,
        forall|i: int|
            0 <= i < new.items.len() ==> (i < old.items.len() && #[trigger] new.items[i].list_id
                == old.items[i].list_id) || has_list(new.lists, new.items[i].list_id),
        forall|i: int|
            0 <= i < new.records.len() ==> (i < old.records.len()
                && #[trigger] new.records[i].item_id == old.records[i].item_id) || has_item(
                new.items,
                new.records[i].item_id,
            ),
    ensures
        new.references_resolved(),
{
    lemma_lists_keep_ids(old.lists, new.lists);
    lemma_items_keep_ids(old.items, new.items);
    assert forall|i: int| 0 <= i < new.items.len() implies has_list(
        new.lists,
        #[trigger] new.items[i].list_id,
    ) by {
        if !has_list(new.lists, new.items[i].list_id) {
            assert(has_list(old.lists, old.items[i].list_id));
        }
    }
    assert forall|i: int| 0 <= i < new.records.len() implies has_item(
        new.items,
        #[trigger] new.records[i].item_id,
    ) by {
        if !has_item(new.items, new.records[i].item_id) {
            assert(has_item(old.items, old.records[i].item_id));
        }
    }
}

/// In a table with unique ids, no other list has the id of the list at `k`.
pub proof fn lemma_only_list_with_id(lists: Seq<ItemList>, k: int)
    requires
        ids_well_formed(list_ids(lists)),
        0 <= k < lists.len(),
    ensures
        forall|j: int| 0 <= j < lists.len() && j != k ==> #[trigger] lists[j].id != lists[k].id,
{
    assert forall|j: int| 0 <= j < lists.len() && j != k implies #[trigger] lists[j].id
        != lists[k].id by {
        assert(list_ids(lists)[j] == lists[j].id);
        assert(list_ids(lists)[k] == lists[k].id);
    }
}

/// In a table with unique ids, no other item has the id of the item at `k`.
pub proof fn lemma_only_item_with_id(items: Seq<WishItem>, k: int)
    requires
        ids_well_formed(item_ids(items)),
        0 <= k < items.len(),
    ensures
        forall|j: int| 0 <= j < items.len() && j != k ==> #[trigger] items[j].id != items[k].id,
{
    assert forall|j: int| 0 <= j < items.len() && j != k implies #[trigger] items[j].id
        != items[k].id by {
        assert(item_ids(items)[j] == items[j].id);
        assert(item_ids(items)[k] == items[k].id);
    }
}

} // verus!
