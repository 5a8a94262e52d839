//! The store: the three tables of the application and every query and
//! update that the application makes on them.

use vstd::prelude::*;
use crate::model::{
    ArchivedItem, ItemList, ItemListSummary, ItemStatus, PurchaseRecord, WishError, WishItem,
    WishStats,
};
use crate::order::{sort_archive, sort_items, sort_summaries};
use crate::text::{none_if_empty, text_lt, trim_spec, trimmed};
use crate::tables::{
    active_in, active_weight, budget_weight, edited_item, filter_seq, has_item, has_list,
    ids_well_formed, in_scope, item_ids, item_of, item_other_than, lemma_filter_seq_contains,
    lemma_filter_seq_ids, lemma_purchases_after_delete, lemma_purchases_after_marking,
    lemma_purchases_after_new_item, lemma_purchases_same_ids_and_statuses, lemma_references_kept,
    lemma_only_list_with_id, lemma_only_item_with_id,
    list_ids, max_id,
    new_item_row, new_record_row, purchased_weight, record_ids, record_not_of, sum_of, StoreView,
};

verus! {

/// Lists, wish items and purchase records, kept consistent.
pub struct WishStore {
    lists: Vec<ItemList>,
    items: Vec<WishItem>,
    records: Vec<PurchaseRecord>,
}

impl View for WishStore {
    type V = StoreView;

    closed spec fn view(&self) -> StoreView {
        StoreView { lists: self.lists@, items: self.items@, records: self.records@ }
    }
}

/// Every id is at most the largest one.
pub proof fn lemma_max_id(ids: Seq<i64>)
    ensures
        forall|i: int| 0 <= i < ids.len() ==> #[trigger] ids[i] <= max_id(ids),
        max_id(ids) >= 0,
        max_id(ids) <= i64::MAX,
    decreases ids.len(),
{
    if ids.len() > 0 {
        lemma_max_id(ids.drop_last());
        assert forall|i: int| 0 <= i < ids.len() implies #[trigger] ids[i] <= max_id(ids) by {
            if i < ids.len() - 1 {
                assert(ids[i] == ids.drop_last()[i]);
            }
        }
    }
}

/// Appending the id one above the largest keeps the ids well formed.
pub proof fn lemma_fresh_id(ids: Seq<i64>)
    requires
        ids_well_formed(ids),
        max_id(ids) < i64::MAX,
    ensures
        ids_well_formed(ids.push((max_id(ids) + 1) as i64)),
        !ids.contains((max_id(ids) + 1) as i64),
{
    lemma_max_id(ids);
    let n = ids.push((max_id(ids) + 1) as i64);
    assert forall|i: int, j: int| 0 <= i < j < n.len() implies #[trigger] n[i] != #[trigger] n[j] by {
        if j < ids.len() {
            assert(n[i] == ids[i] && n[j] == ids[j]);
        } else {
            assert(n[i] == ids[i]);
        }
    }
    assert forall|i: int| 0 <= i < n.len() implies #[trigger] n[i] > 0 by {
        if i < ids.len() {
            assert(n[i] == ids[i]);
        }
    }
}

/// The largest of the ids, or 0 when there is none.
fn max_of(ids: &Vec<i64>) -> (m: i64)
    ensures
        m == max_id(ids@),
{
    let mut m: i64 = 0;
    let mut i: usize = 0;
    while i < ids.len()
        invariant
            i <= ids@.len(),
            m == max_id(ids@.take(i as int)),
        decreases ids@.len() - i,
    {
        proof {
            assert(ids@.take(i + 1).drop_last() =~= ids@.take(i as int));
            lemma_max_id(ids@.take(i as int));
        }
        if ids[i] > m {
            m = ids[i];
        }
        i = i + 1;
    }
    proof {
        assert(ids@.take(i as int) =~= ids@);
    }
    m
}

/// Whether every id is positive and no id repeats.
fn ids_valid(ids: &Vec<i64>) -> (r: bool)
    ensures
        r == ids_well_formed(ids@),
{
    let n = ids.len();
    let mut i: usize = 0;
    while i < n
        invariant
            n == ids@.len(),
            i <= n,
            forall|a: int| 0 <= a < i ==> #[trigger] ids@[a] > 0,
            forall|a: int, b: int| 0 <= a < b < n && a < i ==> #[trigger] ids@[a] != #[trigger] ids@[b],
        decreases n - i,
    {
        if ids[i] <= 0 {
            return false;
        }
        let mut j: usize = i + 1;
        while j < n
            invariant
                n == ids@.len(),
                i < n,
                i < j <= n,
                forall|b: int| i < b < j ==> ids@[i as int] != #[trigger] ids@[b],
            decreases n - j,
        {
            if ids[i] == ids[j] {
                return false;
            }
            j = j + 1;
        }
        i = i + 1;
    }
    true
}

impl WishStore {
    /// The store with no list, no item and no purchase.
    pub fn new() -> (s: Self)
        ensures
            s@.lists == Seq::<ItemList>::empty(),
            s@.items == Seq::<WishItem>::empty(),
            s@.records == Seq::<PurchaseRecord>::empty(),
            s@.well_formed(),
            s@.purchases_have_purchased_items(),
    {
        WishStore { lists: Vec::new(), items: Vec::new(), records: Vec::new() }
    }

    /// A store over rows read back from storage, whatever they hold. Every
    /// query answers on it; the updates need it consistent (see `is_consistent`).
    pub fn load(lists: Vec<ItemList>, items: Vec<WishItem>, records: Vec<PurchaseRecord>) -> (s:
        WishStore)
        ensures
            s@ == (StoreView { lists: lists@, items: items@, records: records@ }),
    {
        WishStore { lists, items, records }
    }

    /// A store over rows read back from storage, provided they are consistent.
    pub fn from_rows(
        lists: Vec<ItemList>,
        items: Vec<WishItem>,
        records: Vec<PurchaseRecord>,
    ) -> (r: Result<WishStore, WishError>)
        ensures
            match r {
                Ok(s) => {
                    &&& s@ == (StoreView { lists: lists@, items: items@, records: records@ })
                    &&& s@.well_formed()
                },
                Err(e) => {
                    &&& e == WishError::InconsistentRows
                    &&& !(StoreView { lists: lists@, items: items@, records: records@ }).well_formed()
                },
            },
    {
        let s = WishStore::load(lists, items, records);
        if s.is_consistent() {
            Ok(s)
        } else {
            Err(WishError::InconsistentRows)
        }
    }

    /// Whether the tables are consistent: unique positive ids, no item of a
    /// missing list, no purchase of a missing item.
    pub fn is_consistent(&self) -> (r: bool)
        ensures
            r == self@.well_formed(),
    {
        if !ids_valid(&self.list_id_vec()) || !ids_valid(&self.item_id_vec()) || !ids_valid(
            &self.record_id_vec(),
        ) {
            return false;
        }
        let mut i: usize = 0;
        while i < self.items.len()
            invariant
                i <= self.items@.len(),
                forall|k: int| 0 <= k < i ==> has_list(self.lists@, #[trigger] self.items@[k].list_id),
            decreases self.items@.len() - i,
        {
            if self.list_position(self.items[i].list_id).is_none() {
                return false;
            }
            i = i + 1;
        }
        let mut j: usize = 0;
        while j < self.records.len()
            invariant
                j <= self.records@.len(),
                forall|k: int|
                    0 <= k < j ==> has_item(self.items@, #[trigger] self.records@[k].item_id),
            decreases self.records@.len() - j,
        {
            if self.item_position(self.records[j].item_id).is_none() {
                return false;
            }
            j = j + 1;
        }
        true
    }

    /// The lists, in the order in which they were created.
    pub fn lists(&self) -> (r: &Vec<ItemList>)
        ensures
            r@ == self@.lists,
    {
        &self.lists
    }

    /// The wish items, in the order in which they were created.
    pub fn items(&self) -> (r: &Vec<WishItem>)
        ensures
            r@ == self@.items,
    {
        &self.items
    }

    /// The purchase records, in the order in which they were made.
    pub fn records(&self) -> (r: &Vec<PurchaseRecord>)
        ensures
            r@ == self@.records,
    {
        &self.records
    }

    fn list_id_vec(&self) -> (r: Vec<i64>)
        ensures
            r@ == list_ids(self@.lists),
    {
        let mut r: Vec<i64> = Vec::new();
        let mut i: usize = 0;
        while i < self.lists.len()
            invariant
                i <= self.lists@.len(),
                r@ =~= list_ids(self.lists@.take(i as int)),
            decreases self.lists@.len() - i,
        {
            r.push(self.lists[i].id);
            i = i + 1;
        }
        proof {
            assert(self.lists@.take(i as int) =~= self.lists@);
        }
        r
    }

    fn item_id_vec(&self) -> (r: Vec<i64>)
        ensures
            r@ == item_ids(self@.items),
    {
        let mut r: Vec<i64> = Vec::new();
        let mut i: usize = 0;
        while i < self.items.len()
            invariant
                i <= self.items@.len(),
                r@ =~= item_ids(self.items@.take(i as int)),
            decreases self.items@.len() - i,
        {
            r.push(self.items[i].id);
            i = i + 1;
        }
        proof {
            assert(self.items@.take(i as int) =~= self.items@);
        }
        r
    }

    fn record_id_vec(&self) -> (r: Vec<i64>)
        ensures
            r@ == record_ids(self@.records),
    {
        let mut r: Vec<i64> = Vec::new();
        let mut i: usize = 0;
        while i < self.records.len()
            invariant
                i <= self.records@.len(),
                r@ =~= record_ids(self.records@.take(i as int)),
            decreases self.records@.len() - i,
        {
            r.push(self.records[i].id);
            i = i + 1;
        }
        proof {
            assert(self.records@.take(i as int) =~= self.records@);
        }
        r
    }

    /// The position of the list with the given id.
    fn list_position(&self, id: i64) -> (r: Option<usize>)
        ensures
            match r {
                Some(k) => k < self@.lists.len() && self@.lists[k as int].id == id,
                None => !has_list(self@.lists, id),
            },
    {
        let mut i: usize = 0;
        while i < self.lists.len()
            invariant
                i <= self.lists@.len(),
                forall|k: int| 0 <= k < i ==> #[trigger] self.lists@[k].id != id,
            decreases self.lists@.len() - i,
        {
            if self.lists[i].id == id {
                return Some(i);
            }
            i = i + 1;
        }
        None
    }

    /// The position of the wish item with the given id.
    fn item_position(&self, id: i64) -> (r: Option<usize>)
        ensures
            match r {
                Some(k) => k < self@.items.len() && self@.items[k as int].id == id,
                None => !has_item(self@.items, id),
            },
    {
        let mut i: usize = 0;
        while i < self.items.len()
            invariant
                i <= self.items@.len(),
                forall|k: int| 0 <= k < i ==> #[trigger] self.items@[k].id != id,
            decreases self.items@.len() - i,
        {
            if self.items[i].id == id {
                return Some(i);
            }
            i = i + 1;
        }
        None
    }

    /// Whether an item belongs to the scope.
    fn item_in_scope(w: &WishItem, scope: Option<i64>) -> (r: bool)
        ensures
            r == in_scope(w.list_id, scope),
    {
        match scope {
            None => true,
            Some(l) => w.list_id == l,
        }
    }

    /// Counts and sums over the items and the purchase records in scope.
    fn stats_in(&self, scope: Option<i64>) -> (r: WishStats)
        ensures
            r.active_count == self@.active_count(scope),
            r.purchased_count == self@.purchased_count(scope),
            r.pending_budget == self@.pending_budget(scope),
            r.total_spent == self@.total_spent(scope),
    {
        let ghost items = self.items@;
        let mut active: u64 = 0;
        let mut purchased: u64 = 0;
        let mut pending: i128 = 0;
        let mut i: usize = 0;
        while i < self.items.len()
            invariant
                items == self.items@,
                i <= items.len(),
                active <= i,
                purchased <= i,
                -(i as int) * 0x8000_0000_0000_0000 <= pending <= (i as int) * 0x7fff_ffff_ffff_ffff,
                active == sum_of(items.take(i as int), active_weight(scope)),
                purchased == sum_of(items.take(i as int), purchased_weight(scope)),
                pending == sum_of(items.take(i as int), budget_weight(scope)),
            decreases items.len() - i,
        {
            let w = &self.items[i];
            proof {
                assert(items.take(i + 1).drop_last() =~= items.take(i as int));
                assert(items.take(i + 1).last() == items[i as int]);
            }
            let counted = Self::item_in_scope(w, scope);
            match w.status {
                ItemStatus::Active => {
                    if counted {
                        active = active + 1;
                        match w.estimated_cost {
                            Some(c) => {
                                pending = pending + c as i128;
                            },
                            None => {},
                        }
                    }
                },
                ItemStatus::Purchased => {
                    if counted {
                        purchased = purchased + 1;
                    }
                },
            }
            i = i + 1;
        }
        proof {
            assert(items.take(i as int) =~= items);
        }
        let ghost records = self.records@;
        let mut spent: i128 = 0;
        let mut j: usize = 0;
        while j < self.records.len()
            invariant
                items == self.items@,
                records == self.records@,
                j <= records.len(),
                -(j as int) * 0x8000_0000_0000_0000 <= spent <= (j as int) * 0x7fff_ffff_ffff_ffff,
                spent == sum_of(records.take(j as int), self@.spent_weight(scope)),
            decreases records.len() - j,
        {
            let r = &self.records[j];
            proof {
                assert(records.take(j + 1).drop_last() =~= records.take(j as int));
                assert(records.take(j + 1).last() == records[j as int]);
            }
            let counted = match scope {
                None => true,
                Some(l) => match self.lookup_item(r.item_id) {
                    Some(w) => w.list_id == l,
                    None => false,
                },
            };
            if counted {
                match r.actual_cost {
                    Some(c) => {
                        spent = spent + c as i128;
                    },
                    None => {},
                }
            }
            j = j + 1;
        }
        proof {
            assert(records.take(j as int) =~= records);
        }
        WishStats {
            total_spent: spent,
            pending_budget: pending,
            active_count: active,
            purchased_count: purchased,
        }
    }

    /// The item with the given id, as the joins of the queries find it.
    fn lookup_item(&self, id: i64) -> (r: Option<&WishItem>)
        ensures
            match r {
                Some(w) => item_of(self@.items, id) == Some(*w),
                None => item_of(self@.items, id) is None,
            },
    {
        let mut i: usize = self.items.len();
        proof {
            assert(self.items@.take(i as int) =~= self.items@);
        }
        while i > 0
            invariant
                i <= self.items@.len(),
                item_of(self.items@, id) == item_of(self.items@.take(i as int), id),
            decreases i,
        {
            proof {
                assert(self.items@.take(i as int).drop_last() =~= self.items@.take(i - 1));
            }
            if self.items[i - 1].id == id {
                return Some(&self.items[i - 1]);
            }
            i = i - 1;
        }
        None
    }

    /// Totals over one list: spent, pending budget, active and purchased counts.
    pub fn get_list_stats(&self, list_id: i64) -> (r: WishStats)
        ensures
            r.total_spent == self@.total_spent(Some(list_id)),
            r.pending_budget == self@.pending_budget(Some(list_id)),
            r.active_count == self@.active_count(Some(list_id)),
            r.purchased_count == self@.purchased_count(Some(list_id)),
    {
        self.stats_in(Some(list_id))
    }

    /// Totals over all lists.
    pub fn get_stats(&self) -> (r: WishStats)
        ensures
            r.total_spent == self@.total_spent(None),
            r.pending_budget == self@.pending_budget(None),
            r.active_count == self@.active_count(None),
            r.purchased_count == self@.purchased_count(None),
    {
        self.stats_in(None)
    }

    /// The summary of a list: its active count and estimated budget.
    fn summarize(&self, l: &ItemList) -> (r: ItemListSummary)
        ensures
            r == self@.summary_of(*l),
    {
        let stats = self.stats_in(Some(l.id));
        ItemListSummary {
            id: l.id,
            name: l.name.clone(),
            created_at: l.created_at.clone(),
            active_count: stats.active_count,
            estimated_budget: stats.pending_budget,
        }
    }

    /// The list with the given id.
    pub fn get_item_list(&self, id: i64) -> (r: Result<ItemList, WishError>)
        ensures
            match r {
                Ok(l) => l.id == id && self@.lists.contains(l),
                Err(e) => e == WishError::ListNotFound && !has_list(self@.lists, id),
            },
    {
        match self.list_position(id) {
            Some(k) => {
                let l = self.lists[k].clone();
                proof {
                    assert(self@.lists[k as int] == l);
                }
                Ok(l)
            },
            None => Err(WishError::ListNotFound),
        }
    }

    /// The list with the given id, with its active count and estimated budget.
    pub fn get_item_list_detail(&self, id: i64) -> (r: Result<ItemListSummary, WishError>)
        ensures
            match r {
                Ok(s) => exists|k: int|
                    0 <= k < self@.lists.len() && #[trigger] self@.lists[k].id == id && s
                        == self@.summary_of(self@.lists[k]),
                Err(e) => e == WishError::ListNotFound && !has_list(self@.lists, id),
            },
    {
        match self.list_position(id) {
            Some(k) => Ok(self.summarize(&self.lists[k])),
            None => Err(WishError::ListNotFound),
        }
    }

    /// Every list with its active count and estimated budget, oldest list first.
    pub fn get_item_lists_with_stats(&self) -> (r: Vec<ItemListSummary>)
        ensures
            r@ == self@.lists_with_stats(),
            forall|i: int, j: int|
                0 <= i < j < r@.len() ==> !text_lt(
                    (#[trigger] r@[j]).created_at,
                    (#[trigger] r@[i]).created_at,
                ),
    {
        let ghost lists = self.lists@;
        let mut out: Vec<ItemListSummary> = Vec::new();
        let mut i: usize = 0;
        while i < self.lists.len()
            invariant
                lists == self.lists@,
                i <= lists.len(),
                out@ =~= lists.take(i as int).map_values(|l: ItemList| self@.summary_of(l)),
            decreases lists.len() - i,
        {
            let s = self.summarize(&self.lists[i]);
            out.push(s);
            i = i + 1;
        }
        proof {
            assert(lists.take(i as int) =~= lists);
        }
        let r = sort_summaries(out);
        proof {
            assert(r@ == self@.lists_with_stats());
            crate::laws::law_lists_oldest_first(self@);
            assert forall|i: int, j: int| 0 <= i < j < r@.len() implies !text_lt(
                (#[trigger] r@[j]).created_at,
                (#[trigger] r@[i]).created_at,
            ) by {
                assert(r@[i] == self@.lists_with_stats()[i]);
                assert(r@[j] == self@.lists_with_stats()[j]);
            }
        }
        r
    }

    /// The item with the given id.
    pub fn get_wish_item(&self, id: i64) -> (r: Result<WishItem, WishError>)
        ensures
            match r {
                Ok(w) => w.id == id && self@.items.contains(w),
                Err(e) => e == WishError::ItemNotFound && !has_item(self@.items, id),
            },
    {
        match self.item_position(id) {
            Some(k) => {
                let w = self.items[k].clone();
                proof {
                    assert(self@.items[k as int] == w);
                }
                Ok(w)
            },
            None => Err(WishError::ItemNotFound),
        }
    }

    /// The active items of a list, highest priority first, and among equal
    /// priority the most recently created first.
    pub fn get_wish_items(&self, list_id: i64) -> (r: Vec<WishItem>)
        ensures
            r@ == self@.active_items(list_id),
            forall|i: int, j: int|
                0 <= i < j < r@.len() ==> {
                    let a = #[trigger] r@[i];
                    let b = #[trigger] r@[j];
                    &&& a.want_level * a.need_level >= b.want_level * b.need_level
                    &&& a.want_level * a.need_level == b.want_level * b.need_level ==> !text_lt(
                        a.created_at,
                        b.created_at,
                    )
                },
    {
        let ghost items = self.items@;
        let mut out: Vec<WishItem> = Vec::new();
        let mut i: usize = 0;
        while i < self.items.len()
            invariant
                items == self.items@,
                i <= items.len(),
                out@ == filter_seq(items.take(i as int), active_in(list_id)),
            decreases items.len() - i,
        {
            proof {
                assert(items.take(i + 1).drop_last() =~= items.take(i as int));
                assert(items.take(i + 1).last() == items[i as int]);
            }
            let w = &self.items[i];
            if w.status == ItemStatus::Active && w.list_id == list_id {
                out.push(w.clone());
            }
            i = i + 1;
        }
        proof {
            assert(items.take(i as int) =~= items);
        }
        let r = sort_items(out);
        proof {
            crate::laws::law_active_items_by_priority(self@, list_id);
        }
        r
    }

    /// Purchased items in scope joined with their records, in record order.
    fn archive_in(&self, scope: Option<i64>) -> (r: Vec<ArchivedItem>)
        ensures
            r@ == self@.archive_rows(self@.records, scope),
    {
        let ghost records = self.records@;
        let mut out: Vec<ArchivedItem> = Vec::new();
        let mut j: usize = 0;
        while j < self.records.len()
            invariant
                records == self.records@,
                j <= records.len(),
                out@ == self@.archive_rows(records.take(j as int), scope),
            decreases records.len() - j,
        {
            proof {
                assert(records.take(j + 1).drop_last() =~= records.take(j as int));
                assert(records.take(j + 1).last() == records[j as int]);
            }
            let r = &self.records[j];
            match self.lookup_item(r.item_id) {
                Some(w) => {
                    if w.status == ItemStatus::Purchased && Self::item_in_scope(w, scope) {
                        out.push(ArchivedItem { item: w.clone(), record: r.clone() });
                    }
                },
                None => {},
            }
            j = j + 1;
        }
        proof {
            assert(records.take(j as int) =~= records);
        }
        out
    }

    /// Every purchase with its item, most recent purchase first.
    pub fn get_archive(&self) -> (r: Vec<ArchivedItem>)
        ensures
            r@ == self@.archive(None),
            forall|i: int, j: int|
                0 <= i < j < r@.len() ==> !text_lt(
                    (#[trigger] r@[i]).record.purchased_at,
                    (#[trigger] r@[j]).record.purchased_at,
                ),
    {
        let r = sort_archive(self.archive_in(None));
        proof {
            crate::laws::law_archive_newest_first(self@, None);
        }
        r
    }

    /// The purchases of one list with their items, most recent purchase first.
    pub fn get_archive_for_list(&self, list_id: i64) -> (r: Vec<ArchivedItem>)
        ensures
            r@ == self@.archive(Some(list_id)),
            forall|i: int, j: int|
                0 <= i < j < r@.len() ==> !text_lt(
                    (#[trigger] r@[i]).record.purchased_at,
                    (#[trigger] r@[j]).record.purchased_at,
                ),
    {
        let r = sort_archive(self.archive_in(Some(list_id)));
        proof {
            crate::laws::law_archive_newest_first(self@, Some(list_id));
        }
        r
    }

    /// Adds a list with the trimmed name and the given creation time; its id
    /// is one above the largest list id.
    pub fn create_item_list(&mut self, name: String, created_at: String) -> (r: Result<
        i64,
        WishError,
    >)
        requires
            old(self)@.well_formed(),
        ensures
            final(self)@.well_formed(),
            old(self)@.purchases_have_purchased_items() ==> final(self)@.purchases_have_purchased_items(),
            match r {
                Ok(id) => {
                    &&& id == old(self)@.next_list_id()
                    &&& old(self)@.list_added(final(self)@, id, trim_spec(name@), created_at)
                },
                Err(e) => {
                    &&& e == WishError::IdsExhausted
                    &&& old(self)@.next_list_id() > i64::MAX
                    &&& final(self)@ == old(self)@
                },
            },
    {
        let ids = self.list_id_vec();
        let m = max_of(&ids);
        if m == i64::MAX {
            return Err(WishError::IdsExhausted);
        }
        let id = m + 1;
        let ghost old_lists = self.lists@;
        let ghost old_view = self@;
        proof {
            lemma_fresh_id(ids@);
        }
        self.lists.push(ItemList { id, name: trimmed(name.as_str()), created_at });
        proof {
            assert(list_ids(self.lists@) =~= list_ids(old_lists).push(id));
            assert(self.lists@.drop_last() =~= old_lists);
            lemma_references_kept(old_view, self@);
        }
        Ok(id)
    }

    /// Gives the list with the given id the trimmed name; nothing changes when
    /// no list has that id.
    pub fn rename_item_list(&mut self, id: i64, name: String)
        requires
            old(self)@.well_formed(),
        ensures
            final(self)@.well_formed(),
            old(self)@.purchases_have_purchased_items() ==> final(self)@.purchases_have_purchased_items(),
            old(self)@.list_renamed(final(self)@, id, trim_spec(name@)),
    {
        let ghost old_lists = self.lists@;
        let ghost old_view = self@;
        match self.list_position(id) {
            Some(k) => {
                let created_at = self.lists[k].created_at.clone();
                self.lists.set(k, ItemList { id, name: trimmed(name.as_str()), created_at });
                proof {
                    assert(list_ids(self.lists@) =~= list_ids(old_lists));
                    lemma_only_list_with_id(old_lists, k as int);
                    lemma_references_kept(old_view, self@);
                }
            },
            None => {},
        }
    }

    /// Adds an active item to an existing list; empty optional texts are
    /// stored as absent. Its id is one above the largest item id.
    pub fn create_wish_item(
        &mut self,
        list_id: i64,
        name: String,
        description: String,
        estimated_cost: Option<i64>,
        want_level: i64,
        need_level: i64,
        where_to_buy: String,
        category: String,
        notes: String,
        created_at: String,
    ) -> (r: Result<i64, WishError>)
        requires
            old(self)@.well_formed(),
        ensures
            final(self)@.well_formed(),
            old(self)@.purchases_have_purchased_items() ==> final(self)@.purchases_have_purchased_items(),
            match r {
                Ok(id) => {
                    &&& id == old(self)@.next_item_id()
                    &&& has_list(old(self)@.lists, list_id)
                    &&& final(self)@.items == old(self)@.items.push(
                        new_item_row(
                            id,
                            list_id,
                            name,
                            description,
                            estimated_cost,
                            want_level,
                            need_level,
                            where_to_buy,
                            category,
                            notes,
                            created_at,
                        ),
                    )
                    &&& final(self)@.lists == old(self)@.lists
                    &&& final(self)@.records == old(self)@.records
                },
                Err(e) => {
                    &&& final(self)@ == old(self)@
                    &&& if has_list(old(self)@.lists, list_id) {
                        e == WishError::IdsExhausted && old(self)@.next_item_id() > i64::MAX
                    } else {
                        e == WishError::ListNotFound
                    }
                },
            },
    {
        if self.list_position(list_id).is_none() {
            return Err(WishError::ListNotFound);
        }
        let ids = self.item_id_vec();
        let m = max_of(&ids);
        if m == i64::MAX {
            return Err(WishError::IdsExhausted);
        }
        let id = m + 1;
        let ghost old_items = self.items@;
        let ghost old_view = self@;
        proof {
            lemma_fresh_id(ids@);
        }
        let item = WishItem {
            id,
            list_id,
            name,
            description: none_if_empty(description),
            estimated_cost,
            want_level,
            need_level,
            where_to_buy: none_if_empty(where_to_buy),
            category: none_if_empty(category),
            notes: none_if_empty(notes),
            status: ItemStatus::Active,
            created_at,
        };
        self.items.push(item);
        proof {
            assert(item_ids(self.items@) =~= item_ids(old_items).push(id));
            lemma_references_kept(old_view, self@);
            if old_view.purchases_have_purchased_items() {
                assert(!has_item(old_items, id)) by {
                    if has_item(old_items, id) {
                        let q = choose|q: int| 0 <= q < old_items.len() && #[trigger] old_items[q].id == id;
                        assert(item_ids(old_items)[q] == id);
                    }
                }
                lemma_purchases_after_new_item(old_view, item);
                assert(self@ == (StoreView { items: old_items.push(item), ..old_view }));
            }
        }
        Ok(id)
    }

    /// Replaces the editable fields of the item with the given id; its list,
    /// status and creation time stay. Nothing changes when no item has that id.
    pub fn update_wish_item(
        &mut self,
        id: i64,
        name: String,
        description: String,
        estimated_cost: Option<i64>,
        want_level: i64,
        need_level: i64,
        where_to_buy: String,
        category: String,
        notes: String,
    )
        requires
            old(self)@.well_formed(),
        ensures
            final(self)@.well_formed(),
            old(self)@.purchases_have_purchased_items() ==> final(self)@.purchases_have_purchased_items(),
            final(self)@.lists == old(self)@.lists,
            final(self)@.records == old(self)@.records,
            final(self)@.items.len() == old(self)@.items.len(),
            forall|j: int|
                0 <= j < old(self)@.items.len() ==> #[trigger] final(self)@.items[j] == if old(
                    self,
                )@.items[j].id == id {
                    edited_item(
                        old(self)@.items[j],
                        name,
                        description,
                        estimated_cost,
                        want_level,
                        need_level,
                        where_to_buy,
                        category,
                        notes,
                    )
                } else {
                    old(self)@.items[j]
                },
            forall|j: int|
                0 <= j < old(self)@.items.len() && old(self)@.items[j].id == id ==> {
                    let w = #[trigger] final(self)@.items[j];
                    &&& w.name == name
                    &&& w.estimated_cost == estimated_cost
                    &&& w.want_level == want_level
                    &&& w.need_level == need_level
                    &&& w.id == id
                    &&& w.list_id == old(self)@.items[j].list_id
                    &&& w.status == old(self)@.items[j].status
                    &&& w.created_at == old(self)@.items[j].created_at
                },
    {
        let ghost old_view = self@;
        let ghost old_items = self.items@;
        match self.item_position(id) {
            Some(k) => {
                let old_item = &self.items[k];
                let item = WishItem {
                    id: old_item.id,
                    list_id: old_item.list_id,
                    name,
                    description: none_if_empty(description),
                    estimated_cost,
                    want_level,
                    need_level,
                    where_to_buy: none_if_empty(where_to_buy),
                    category: none_if_empty(category),
                    notes: none_if_empty(notes),
                    status: old_item.status,
                    created_at: old_item.created_at.clone(),
                };
                self.items.set(k, item);
                proof {
                    assert(item_ids(self.items@) =~= item_ids(old_items));
                    lemma_only_item_with_id(old_items, k as int);
                    lemma_references_kept(old_view, self@);
                    if old_view.purchases_have_purchased_items() {
                        lemma_purchases_same_ids_and_statuses(old_view, self@);
                    }
                }
            },
            None => {},
        }
    }

    /// Moves the item with the given id to the target list. The target list
    /// must exist when the item does; nothing changes when no item has that id.
    pub fn transfer_wish_item(&mut self, item_id: i64, target_list_id: i64) -> (r: Result<
        (),
        WishError,
    >)
        requires
            old(self)@.well_formed(),
        ensures
            final(self)@.well_formed(),
            old(self)@.purchases_have_purchased_items() ==> final(self)@.purchases_have_purchased_items(),
            match r {
                Ok(()) => {
                    &&& has_item(old(self)@.items, item_id) ==> has_list(
                        old(self)@.lists,
                        target_list_id,
                    )
                    &&& final(self)@.lists == old(self)@.lists
                    &&& final(self)@.records == old(self)@.records
                    &&& old(self)@.items_moved(final(self)@, item_id, target_list_id)
                },
                Err(e) => {
                    &&& e == WishError::ListNotFound
                    &&& has_item(old(self)@.items, item_id)
                    &&& !has_list(old(self)@.lists, target_list_id)
                    &&& final(self)@ == old(self)@
                },
            },
    {
        let ghost old_view = self@;
        let ghost old_items = self.items@;
        match self.item_position(item_id) {
            Some(k) => {
                if self.list_position(target_list_id).is_none() {
                    return Err(WishError::ListNotFound);
                }
                let mut item = self.items[k].clone();
                item.list_id = target_list_id;
                self.items.set(k, item);
                proof {
                    assert(item_ids(self.items@) =~= item_ids(old_items));
                    lemma_only_item_with_id(old_items, k as int);
                    lemma_references_kept(old_view, self@);
                    if old_view.purchases_have_purchased_items() {
                        lemma_purchases_same_ids_and_statuses(old_view, self@);
                    }
                }
                Ok(())
            },
            None => Ok(()),
        }
    }

    /// Marks the item with the given id as purchased and records the purchase
    /// (an empty note is stored as absent). The record's id is one above the
    /// largest record id.
    pub fn mark_as_purchased(
        &mut self,
        id: i64,
        actual_cost: Option<i64>,
        notes: String,
        purchased_at: String,
    ) -> (r: Result<(), WishError>)
        requires
            old(self)@.well_formed(),
        ensures
            final(self)@.well_formed(),
            old(self)@.purchases_have_purchased_items() ==> final(self)@.purchases_have_purchased_items(),
            match r {
                Ok(()) => {
                    &&& has_item(old(self)@.items, id)
                    &&& old(self)@.next_record_id() <= i64::MAX
                    &&& final(self)@.lists == old(self)@.lists
                    &&& final(self)@.records == old(self)@.records.push(
                        new_record_row(
                            old(self)@.next_record_id() as i64,
                            id,
                            actual_cost,
                            notes,
                            purchased_at,
                        ),
                    )
                    &&& old(self)@.items_marked_purchased(final(self)@, id)
                },
                Err(e) => {
                    &&& final(self)@ == old(self)@
                    &&& if has_item(old(self)@.items, id) {
                        e == WishError::IdsExhausted && old(self)@.next_record_id() > i64::MAX
                    } else {
                        e == WishError::ItemNotFound
                    }
                },
            },
    {
        let ghost old_view = self@;
        let ghost old_items = self.items@;
        let ghost old_records = self.records@;
        let k = match self.item_position(id) {
            Some(k) => k,
            None => {
                return Err(WishError::ItemNotFound);
            },
        };
        let ids = self.record_id_vec();
        let m = max_of(&ids);
        if m == i64::MAX {
            return Err(WishError::IdsExhausted);
        }
        let record_id = m + 1;
        proof {
            lemma_fresh_id(ids@);
        }
        let mut item = self.items[k].clone();
        item.status = ItemStatus::Purchased;
        self.items.set(k, item);
        self.records.push(
            PurchaseRecord {
                id: record_id,
                item_id: id,
                actual_cost,
                purchased_at,
                notes: none_if_empty(notes),
            },
        );
        proof {
            assert(item_ids(self.items@) =~= item_ids(old_items));
            assert(record_ids(self.records@) =~= record_ids(old_records).push(record_id));
            lemma_only_item_with_id(old_items, k as int);
            assert(has_item(self.items@, self.items@[k as int].id));
            assert forall|i: int| 0 <= i < self.records@.len() implies (i < old_records.len()
                && #[trigger] self.records@[i].item_id == old_records[i].item_id) || has_item(
                self.items@,
                self.records@[i].item_id,
            ) by {
                if i < old_records.len() {
                    assert(self.records@[i] == old_records[i]);
                }
            }
            lemma_references_kept(old_view, self@);
            assert(old_view.items_marked_purchased(self@, id));
            assert(self@.records == old_records.push(self@.records.last()));
            if old_view.purchases_have_purchased_items() {
                lemma_purchases_after_marking(old_view, self@, id, self@.records.last());
            }
        }
        Ok(())
    }

    /// Deletes the item with the given id together with its purchase records.
    pub fn delete_wish_item(&mut self, id: i64)
        requires
            old(self)@.well_formed(),
        ensures
            final(self)@.well_formed(),
            old(self)@.purchases_have_purchased_items() ==> final(self)@.purchases_have_purchased_items(),
            final(self)@.lists == old(self)@.lists,
            final(self)@.items == filter_seq(old(self)@.items, item_other_than(id)),
            final(self)@.records == filter_seq(old(self)@.records, record_not_of(id)),
            forall|r: PurchaseRecord|
                #[trigger] final(self)@.records.contains(r) <==> old(self)@.records.contains(r)
                    && r.item_id != id,
    {
        let ghost old_view = self@;
        let ghost old_items = self.items@;
        let ghost old_records = self.records@;
        let mut records: Vec<PurchaseRecord> = Vec::new();
        let mut j: usize = 0;
        while j < self.records.len()
            invariant
                old_records == self.records@,
                j <= old_records.len(),
                records@ == filter_seq(old_records.take(j as int), record_not_of(id)),
            decreases old_records.len() - j,
        {
            proof {
                assert(old_records.take(j + 1).drop_last() =~= old_records.take(j as int));
                assert(old_records.take(j + 1).last() == old_records[j as int]);
            }
            if self.records[j].item_id != id {
                records.push(self.records[j].clone());
            }
            j = j + 1;
        }
        let mut items: Vec<WishItem> = Vec::new();
        let mut i: usize = 0;
        while i < self.items.len()
            invariant
                old_items == self.items@,
                i <= old_items.len(),
                items@ == filter_seq(old_items.take(i as int), item_other_than(id)),
            decreases old_items.len() - i,
        {
            proof {
                assert(old_items.take(i + 1).drop_last() =~= old_items.take(i as int));
                assert(old_items.take(i + 1).last() == old_items[i as int]);
            }
            if self.items[i].id != id {
                items.push(self.items[i].clone());
            }
            i = i + 1;
        }
        proof {
            assert(old_records.take(j as int) =~= old_records);
            assert(old_items.take(i as int) =~= old_items);
        }
        self.records = records;
        self.items = items;
        proof {
            crate::laws::law_delete_keeps_other_records(old_view, id);
            if old_view.purchases_have_purchased_items() {
                lemma_purchases_after_delete(old_view, id);
                assert(self@ == (StoreView {
                    items: filter_seq(old_items, item_other_than(id)),
                    records: filter_seq(old_records, record_not_of(id)),
                    ..old_view
                }));
            }
            let key_item = |w: WishItem| w.id;
            let key_record = |r: PurchaseRecord| r.id;
            assert(item_ids(old_items) =~= old_items.map_values(key_item));
            lemma_filter_seq_ids(old_items, item_other_than(id), key_item);
            assert(item_ids(self.items@) =~= self.items@.map_values(key_item));
            assert(record_ids(old_records) =~= old_records.map_values(key_record));
            lemma_filter_seq_ids(old_records, record_not_of(id), key_record);
            assert(record_ids(self.records@) =~= self.records@.map_values(key_record));
            assert forall|i: int| 0 <= i < self.items@.len() implies has_list(
                self.lists@,
                #[trigger] self.items@[i].list_id,
            ) by {
                let w = self.items@[i];
                assert(self.items@.contains(w));
                lemma_filter_seq_contains(old_items, item_other_than(id), w);
                let q = choose|q: int| 0 <= q < old_items.len() && old_items[q] == w;
                assert(has_list(self.lists@, old_items[q].list_id));
            }
            assert forall|i: int| 0 <= i < self.records@.len() implies has_item(
                self.items@,
                #[trigger] self.records@[i].item_id,
            ) by {
                let r = self.records@[i];
                assert(self.records@.contains(r));
                lemma_filter_seq_contains(old_records, record_not_of(id), r);
                let q = choose|q: int| 0 <= q < old_records.len() && old_records[q] == r;
                assert(has_item(old_items, old_records[q].item_id));
                let z = choose|z: int| 0 <= z < old_items.len() && #[trigger] old_items[z].id
                    == r.item_id;
                let w = old_items[z];
                assert(old_items.contains(w));
                lemma_filter_seq_contains(old_items, item_other_than(id), w);
                let y = choose|y: int| 0 <= y < self.items@.len() && self.items@[y] == w;
                assert(self.items@[y].id == r.item_id);
            }
        }
    }
}

} // verus!
