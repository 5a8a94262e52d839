use wishr::model::{ItemStatus, WishError, WishItem};
use wishr::store::WishStore;

fn s(x: &str) -> String {
    x.to_string()
}

fn seed_list(store: &mut WishStore, name: &str, created_at: &str) -> i64 {
    store.create_item_list(s(name), s(created_at)).unwrap()
}

fn seed_item(
    store: &mut WishStore,
    list_id: i64,
    name: &str,
    want_level: i64,
    need_level: i64,
    estimated_cost: Option<i64>,
    created_at: &str,
) -> i64 {
    store
        .create_wish_item(
            list_id,
            s(name),
            s(""),
            estimated_cost,
            want_level,
            need_level,
            s(""),
            s(""),
            s(""),
            s(created_at),
        )
        .unwrap()
}

fn seed_purchase(store: &mut WishStore, item_id: i64, actual_cost: Option<i64>, purchased_at: &str) {
    store.mark_as_purchased(item_id, actual_cost, s(""), s(purchased_at)).unwrap();
}

fn item_by_id(store: &WishStore, id: i64) -> WishItem {
    store.get_wish_item(id).unwrap()
}

// ── List management ─────────────────────────────────────────────────────

#[test]
fn create_list_returns_nonzero_id() {
    let mut store = WishStore::new();
    let id = seed_list(&mut store, "Gifts", "2025-01-01T00:00:00Z");
    assert!(id > 0);
}

#[test]
fn create_list_multiple_have_unique_ids() {
    let mut store = WishStore::new();
    let id1 = seed_list(&mut store, "A", "2025-01-01T00:00:00Z");
    let id2 = seed_list(&mut store, "B", "2025-01-02T00:00:00Z");
    assert_ne!(id1, id2);
}

#[test]
fn create_list_trims_whitespace() {
    let mut store = WishStore::new();
    let id = seed_list(&mut store, "  Trimmed  ", "2025-01-01T00:00:00Z");
    let stored = store.get_item_list(id).unwrap().name;
    assert_eq!(stored, "Trimmed");
}

#[test]
fn get_list_returns_correct_fields() {
    let mut store = WishStore::new();
    let id = seed_list(&mut store, "Birthday", "2025-03-01T12:00:00Z");
    let list = store.get_item_list(id).unwrap();
    assert_eq!(list.id, id);
    assert_eq!(list.name, "Birthday");
    assert_eq!(list.created_at, "2025-03-01T12:00:00Z");
}

#[test]
fn get_list_missing_id_returns_error() {
    let store = WishStore::new();
    let result = store.get_item_list(9999);
    assert!(result.is_err());
}

#[test]
fn rename_list_persists() {
    let mut store = WishStore::new();
    let id = seed_list(&mut store, "OldName", "2025-01-01T00:00:00Z");
    store.rename_item_list(id, s("NewName"));
    let stored = store.get_item_list(id).unwrap().name;
    assert_eq!(stored, "NewName");
}

#[test]
fn rename_list_trims_whitespace() {
    let mut store = WishStore::new();
    let id = seed_list(&mut store, "OldName", "2025-01-01T00:00:00Z");
    store.rename_item_list(id, s("  Trimmed  "));
    let stored = store.get_item_list(id).unwrap().name;
    assert_eq!(stored, "Trimmed");
}

#[test]
fn lists_ordered_by_created_at_asc() {
    let mut store = WishStore::new();
    let id_a = seed_list(&mut store, "Alpha", "2025-01-01T00:00:00Z");
    let id_b = seed_list(&mut store, "Beta", "2025-01-03T00:00:00Z");
    let id_c = seed_list(&mut store, "Gamma", "2025-01-02T00:00:00Z");
    let lists = store.get_item_lists_with_stats();
    let pos = |id: i64| lists.iter().position(|l| l.id == id).unwrap();
    assert!(pos(id_a) < pos(id_c), "Alpha (Jan 1) before Gamma (Jan 2)");
    assert!(pos(id_c) < pos(id_b), "Gamma (Jan 2) before Beta (Jan 3)");
}

#[test]
fn stats_empty_list_is_all_zeros() {
    let mut store = WishStore::new();
    let id = seed_list(&mut store, "Empty", "2025-01-01T00:00:00Z");
    let st = store.get_list_stats(id);
    assert_eq!(st.active_count, 0);
    assert_eq!(st.purchased_count, 0);
    assert_eq!(st.pending_budget, 0);
    assert_eq!(st.total_spent, 0);
}

#[test]
fn stats_counts_only_active_items() {
    let mut store = WishStore::new();
    let list_id = seed_list(&mut store, "Mixed", "2025-01-01T00:00:00Z");
    seed_item(&mut store, list_id, "Active", 3, 3, Some(1000), "2025-01-01T00:00:00Z");
    let p = seed_item(&mut store, list_id, "ToBuy", 3, 3, Some(2000), "2025-01-02T00:00:00Z");
    seed_purchase(&mut store, p, Some(1800), "2025-01-03T00:00:00Z");
    let st = store.get_list_stats(list_id);
    assert_eq!(st.active_count, 1);
    assert_eq!(st.purchased_count, 1);
    assert_eq!(st.pending_budget, 1000);
    assert_eq!(st.total_spent, 1800);
}

#[test]
fn stats_sums_estimated_costs() {
    let mut store = WishStore::new();
    let list_id = seed_list(&mut store, "Sums", "2025-01-01T00:00:00Z");
    seed_item(&mut store, list_id, "A", 3, 3, Some(10000), "2025-01-01T00:00:00Z");
    seed_item(&mut store, list_id, "B", 3, 3, Some(5000), "2025-01-02T00:00:00Z");
    seed_item(&mut store, list_id, "C", 3, 3, Some(2550), "2025-01-03T00:00:00Z");
    let st = store.get_list_stats(list_id);
    assert_eq!(st.pending_budget, 17550);
    assert_eq!(st.active_count, 3);
}

#[test]
fn stats_null_cost_treated_as_zero() {
    let mut store = WishStore::new();
    let list_id = seed_list(&mut store, "NullCost", "2025-01-01T00:00:00Z");
    seed_item(&mut store, list_id, "NoCost", 3, 3, None, "2025-01-01T00:00:00Z");
    seed_item(&mut store, list_id, "WithCost", 3, 3, Some(5000), "2025-01-02T00:00:00Z");
    let st = store.get_list_stats(list_id);
    assert_eq!(st.pending_budget, 5000);
}

#[test]
fn detail_matches_stats_query() {
    let mut store = WishStore::new();
    let list_id = seed_list(&mut store, "Detail", "2025-01-01T00:00:00Z");
    seed_item(&mut store, list_id, "Item", 3, 3, Some(3000), "2025-01-01T00:00:00Z");
    let detail = store.get_item_list_detail(list_id).unwrap();
    assert_eq!(detail.active_count, 1);
    assert_eq!(detail.estimated_budget, 3000);
}

#[test]
fn detail_missing_id_returns_error() {
    let store = WishStore::new();
    let result = store.get_item_list_detail(9999);
    assert!(result.is_err());
}

// ── Wish items ──────────────────────────────────────────────────────────

#[test]
fn create_item_returns_nonzero_id() {
    let mut store = WishStore::new();
    let list_id = seed_list(&mut store, "L", "2025-01-01T00:00:00Z");
    let id = seed_item(&mut store, list_id, "Widget", 3, 3, None, "2025-01-01T00:00:00Z");
    assert!(id > 0);
}

#[test]
fn create_item_status_is_active() {
    let mut store = WishStore::new();
    let list_id = seed_list(&mut store, "L", "2025-01-01T00:00:00Z");
    let id = seed_item(&mut store, list_id, "Widget", 3, 3, None, "2025-01-01T00:00:00Z");
    assert_eq!(item_by_id(&store, id).status, ItemStatus::Active);
    assert_eq!(item_by_id(&store, id).status.as_text(), "active");
}

#[test]
fn create_item_empty_strings_become_null() {
    let mut store = WishStore::new();
    let list_id = seed_list(&mut store, "L", "2025-01-01T00:00:00Z");
    let id = store
        .create_wish_item(
            list_id,
            s("Item"),
            s(""),
            None,
            3,
            3,
            s(""),
            s(""),
            s(""),
            s("2025-01-01T00:00:00Z"),
        )
        .unwrap();
    let item = item_by_id(&store, id);
    assert!(item.description.is_none());
    assert!(item.where_to_buy.is_none());
    assert!(item.category.is_none());
    assert!(item.notes.is_none());
}

#[test]
fn create_item_non_empty_optionals_preserved() {
    let mut store = WishStore::new();
    let list_id = seed_list(&mut store, "L", "2025-01-01T00:00:00Z");
    let id = store
        .create_wish_item(
            list_id,
            s("Item"),
            s("Desc"),
            Some(2999),
            3,
            3,
            s("amazon.com"),
            s("Electronics"),
            s("Deal"),
            s("2025-01-01T00:00:00Z"),
        )
        .unwrap();
    let item = item_by_id(&store, id);
    assert_eq!(item.description.as_deref(), Some("Desc"));
    assert_eq!(item.where_to_buy.as_deref(), Some("amazon.com"));
    assert_eq!(item.category.as_deref(), Some("Electronics"));
    assert_eq!(item.notes.as_deref(), Some("Deal"));
    assert_eq!(item.estimated_cost, Some(2999));
}

#[test]
fn create_item_null_estimated_cost() {
    let mut store = WishStore::new();
    let list_id = seed_list(&mut store, "L", "2025-01-01T00:00:00Z");
    let id = seed_item(&mut store, list_id, "Free", 3, 3, None, "2025-01-01T00:00:00Z");
    assert!(item_by_id(&store, id).estimated_cost.is_none());
}

#[test]
fn create_item_float_cost_stored() {
    let mut store = WishStore::new();
    let list_id = seed_list(&mut store, "L", "2025-01-01T00:00:00Z");
    let id = seed_item(&mut store, list_id, "Item", 3, 3, Some(9999), "2025-01-01T00:00:00Z");
    assert_eq!(item_by_id(&store, id).estimated_cost, Some(9999));
}

#[test]
fn get_item_returns_all_fields() {
    let mut store = WishStore::new();
    let list_id = seed_list(&mut store, "L", "2025-01-01T00:00:00Z");
    let id = store
        .create_wish_item(
            list_id,
            s("Full"),
            s("Desc"),
            Some(4999),
            4,
            5,
            s("shop.com"),
            s("Toys"),
            s("Nice"),
            s("2025-06-15T10:00:00Z"),
        )
        .unwrap();
    let item = item_by_id(&store, id);
    assert_eq!(item.id, id);
    assert_eq!(item.list_id, list_id);
    assert_eq!(item.name, "Full");
    assert_eq!(item.description.as_deref(), Some("Desc"));
    assert_eq!(item.estimated_cost, Some(4999));
    assert_eq!(item.want_level, 4);
    assert_eq!(item.need_level, 5);
    assert_eq!(item.where_to_buy.as_deref(), Some("shop.com"));
    assert_eq!(item.category.as_deref(), Some("Toys"));
    assert_eq!(item.notes.as_deref(), Some("Nice"));
    assert_eq!(item.status.as_text(), "active");
    assert_eq!(item.created_at, "2025-06-15T10:00:00Z");
}

#[test]
fn get_item_missing_returns_error() {
    let store = WishStore::new();
    assert!(store.get_wish_item(9999).is_err());
}

#[test]
fn get_items_excludes_purchased() {
    let mut store = WishStore::new();
    let list_id = seed_list(&mut store, "L", "2025-01-01T00:00:00Z");
    let active = seed_item(&mut store, list_id, "Active", 3, 3, None, "2025-01-01T00:00:00Z");
    let p = seed_item(&mut store, list_id, "Purchased", 3, 3, None, "2025-01-02T00:00:00Z");
    seed_purchase(&mut store, p, None, "2025-01-03T00:00:00Z");
    let items = store.get_wish_items(list_id);
    assert_eq!(items.len(), 1);
    assert_eq!(items[0].id, active);
}

#[test]
fn get_items_sorted_by_priority_desc() {
    let mut store = WishStore::new();
    let list_id = seed_list(&mut store, "L", "2025-01-01T00:00:00Z");
    let low = seed_item(&mut store, list_id, "Low", 1, 1, None, "2025-01-01T00:00:00Z");
    let high = seed_item(&mut store, list_id, "High", 5, 5, None, "2025-01-02T00:00:00Z");
    let mid = seed_item(&mut store, list_id, "Mid", 3, 3, None, "2025-01-03T00:00:00Z");
    let items = store.get_wish_items(list_id);
    assert_eq!(items[0].id, high);
    assert_eq!(items[1].id, mid);
    assert_eq!(items[2].id, low);
}

#[test]
fn get_items_secondary_sort_by_created_at_desc() {
    let mut store = WishStore::new();
    let list_id = seed_list(&mut store, "L", "2025-01-01T00:00:00Z");
    let older = seed_item(&mut store, list_id, "Older", 3, 3, None, "2025-01-01T00:00:00Z");
    let newer = seed_item(&mut store, list_id, "Newer", 3, 3, None, "2025-01-02T00:00:00Z");
    let items = store.get_wish_items(list_id);
    assert_eq!(items[0].id, newer, "newer item first when priority ties");
    assert_eq!(items[1].id, older);
}

#[test]
fn get_items_isolated_to_list() {
    let mut store = WishStore::new();
    let list_a = seed_list(&mut store, "A", "2025-01-01T00:00:00Z");
    let list_b = seed_list(&mut store, "B", "2025-01-02T00:00:00Z");
    let item_a = seed_item(&mut store, list_a, "ItemA", 3, 3, None, "2025-01-01T00:00:00Z");
    seed_item(&mut store, list_b, "ItemB", 3, 3, None, "2025-01-01T00:00:00Z");
    let items = store.get_wish_items(list_a);
    assert_eq!(items.len(), 1);
    assert_eq!(items[0].id, item_a);
}

#[test]
fn update_item_persists_changes() {
    let mut store = WishStore::new();
    let list_id = seed_list(&mut store, "L", "2025-01-01T00:00:00Z");
    let id = seed_item(&mut store, list_id, "Old", 3, 3, None, "2025-01-01T00:00:00Z");
    store.update_wish_item(
        id,
        s("New"),
        s("Updated"),
        Some(5500),
        5,
        4,
        s("shop.com"),
        s("Gadgets"),
        s("Notes"),
    );
    let item = item_by_id(&store, id);
    assert_eq!(item.name, "New");
    assert_eq!(item.description.as_deref(), Some("Updated"));
    assert_eq!(item.estimated_cost, Some(5500));
    assert_eq!(item.want_level, 5);
    assert_eq!(item.need_level, 4);
    assert_eq!(item.where_to_buy.as_deref(), Some("shop.com"));
    assert_eq!(item.category.as_deref(), Some("Gadgets"));
    assert_eq!(item.notes.as_deref(), Some("Notes"));
}

#[test]
fn update_item_empty_strings_become_null() {
    let mut store = WishStore::new();
    let list_id = seed_list(&mut store, "L", "2025-01-01T00:00:00Z");
    let id = store
        .create_wish_item(
            list_id,
            s("Item"),
            s("Desc"),
            None,
            3,
            3,
            s("shop"),
            s("Cat"),
            s("Notes"),
            s("2025-01-01T00:00:00Z"),
        )
        .unwrap();
    store.update_wish_item(id, s("Item"), s(""), None, 3, 3, s(""), s(""), s(""));
    let item = item_by_id(&store, id);
    assert!(item.description.is_none());
    assert!(item.where_to_buy.is_none());
    assert!(item.category.is_none());
    assert!(item.notes.is_none());
}

#[test]
fn update_item_does_not_change_status() {
    let mut store = WishStore::new();
    let list_id = seed_list(&mut store, "L", "2025-01-01T00:00:00Z");
    let id = seed_item(&mut store, list_id, "Item", 3, 3, None, "2025-01-01T00:00:00Z");
    store.update_wish_item(id, s("Updated"), s(""), None, 3, 3, s(""), s(""), s(""));
    assert_eq!(item_by_id(&store, id).status.as_text(), "active");
}

// ── Transfer ────────────────────────────────────────────────────────────

#[test]
fn transfer_moves_item_to_target_list() {
    let mut store = WishStore::new();
    let list_a = seed_list(&mut store, "A", "2025-01-01T00:00:00Z");
    let list_b = seed_list(&mut store, "B", "2025-01-02T00:00:00Z");
    let item = seed_item(&mut store, list_a, "Item", 3, 3, None, "2025-01-01T00:00:00Z");
    store.transfer_wish_item(item, list_b).unwrap();
    assert_eq!(item_by_id(&store, item).list_id, list_b);
}

#[test]
fn transfer_item_visible_in_new_list() {
    let mut store = WishStore::new();
    let list_a = seed_list(&mut store, "A", "2025-01-01T00:00:00Z");
    let list_b = seed_list(&mut store, "B", "2025-01-02T00:00:00Z");
    let item = seed_item(&mut store, list_a, "Item", 3, 3, None, "2025-01-01T00:00:00Z");
    store.transfer_wish_item(item, list_b).unwrap();
    let items_b = store.get_wish_items(list_b);
    assert!(items_b.iter().any(|i| i.id == item));
}

#[test]
fn transfer_item_absent_from_old_list() {
    let mut store = WishStore::new();
    let list_a = seed_list(&mut store, "A", "2025-01-01T00:00:00Z");
    let list_b = seed_list(&mut store, "B", "2025-01-02T00:00:00Z");
    let item = seed_item(&mut store, list_a, "Item", 3, 3, None, "2025-01-01T00:00:00Z");
    store.transfer_wish_item(item, list_b).unwrap();
    let items_a = store.get_wish_items(list_a);
    assert!(!items_a.iter().any(|i| i.id == item));
}

// ── Delete ──────────────────────────────────────────────────────────────

#[test]
fn delete_active_item_removes_it() {
    let mut store = WishStore::new();
    let list_id = seed_list(&mut store, "L", "2025-01-01T00:00:00Z");
    let id = seed_item(&mut store, list_id, "ToDelete", 3, 3, None, "2025-01-01T00:00:00Z");
    store.delete_wish_item(id);
    assert!(store.get_wish_item(id).is_err());
}

#[test]
fn delete_purchased_item_removes_item_and_record() {
    let mut store = WishStore::new();
    let list_id = seed_list(&mut store, "L", "2025-01-01T00:00:00Z");
    let id = seed_item(&mut store, list_id, "ToDelete", 3, 3, None, "2025-01-01T00:00:00Z");
    seed_purchase(&mut store, id, Some(1000), "2025-01-02T00:00:00Z");
    let record_count = store.records().iter().filter(|r| r.item_id == id).count();
    assert_eq!(record_count, 1, "precondition: record exists before delete");
    store.delete_wish_item(id);
    assert!(store.get_wish_item(id).is_err());
    let after = store.records().iter().filter(|r| r.item_id == id).count();
    assert_eq!(after, 0);
}

// ── Mark as purchased ───────────────────────────────────────────────────

#[test]
fn mark_purchased_changes_status() {
    let mut store = WishStore::new();
    let list_id = seed_list(&mut store, "L", "2025-01-01T00:00:00Z");
    let id = seed_item(&mut store, list_id, "Item", 3, 3, None, "2025-01-01T00:00:00Z");
    seed_purchase(&mut store, id, None, "2025-01-02T00:00:00Z");
    assert_eq!(item_by_id(&store, id).status.as_text(), "purchased");
}

#[test]
fn mark_purchased_creates_record() {
    let mut store = WishStore::new();
    let list_id = seed_list(&mut store, "L", "2025-01-01T00:00:00Z");
    let id = seed_item(&mut store, list_id, "Item", 3, 3, None, "2025-01-01T00:00:00Z");
    seed_purchase(&mut store, id, Some(4200), "2025-01-02T00:00:00Z");
    let record = store.records().iter().find(|r| r.item_id == id).unwrap();
    assert_eq!(record.item_id, id);
    assert_eq!(record.actual_cost, Some(4200));
}

#[test]
fn mark_purchased_item_absent_from_active_items() {
    let mut store = WishStore::new();
    let list_id = seed_list(&mut store, "L", "2025-01-01T00:00:00Z");
    let id = seed_item(&mut store, list_id, "Item", 3, 3, None, "2025-01-01T00:00:00Z");
    seed_purchase(&mut store, id, None, "2025-01-02T00:00:00Z");
    let active = store.get_wish_items(list_id);
    assert!(!active.iter().any(|i| i.id == id));
}

#[test]
fn mark_purchased_null_cost_stored() {
    let mut store = WishStore::new();
    let list_id = seed_list(&mut store, "L", "2025-01-01T00:00:00Z");
    let id = seed_item(&mut store, list_id, "Item", 3, 3, None, "2025-01-01T00:00:00Z");
    seed_purchase(&mut store, id, None, "2025-01-02T00:00:00Z");
    let record = store.records().iter().find(|r| r.item_id == id).unwrap();
    assert!(record.actual_cost.is_none());
}

#[test]
fn mark_purchased_notes_empty_becomes_null() {
    let mut store = WishStore::new();
    let list_id = seed_list(&mut store, "L", "2025-01-01T00:00:00Z");
    let id = seed_item(&mut store, list_id, "Item", 3, 3, None, "2025-01-01T00:00:00Z");
    store.mark_as_purchased(id, None, s(""), s("2025-01-02T00:00:00Z")).unwrap();
    let record = store.records().iter().find(|r| r.item_id == id).unwrap();
    assert!(record.notes.is_none());
}

#[test]
fn mark_purchased_notes_preserved() {
    let mut store = WishStore::new();
    let list_id = seed_list(&mut store, "L", "2025-01-01T00:00:00Z");
    let id = seed_item(&mut store, list_id, "Item", 3, 3, None, "2025-01-01T00:00:00Z");
    store
        .mark_as_purchased(id, None, s("Got it on sale"), s("2025-01-02T00:00:00Z"))
        .unwrap();
    let record = store.records().iter().find(|r| r.item_id == id).unwrap();
    assert_eq!(record.notes.as_deref(), Some("Got it on sale"));
}

// ── Archive ─────────────────────────────────────────────────────────────

#[test]
fn archive_empty_when_nothing_purchased() {
    let store = WishStore::new();
    assert!(store.get_archive().is_empty());
}

#[test]
fn archive_contains_only_purchased_items() {
    let mut store = WishStore::new();
    let list_id = seed_list(&mut store, "L", "2025-01-01T00:00:00Z");
    seed_item(&mut store, list_id, "Active", 3, 3, None, "2025-01-01T00:00:00Z");
    let p = seed_item(&mut store, list_id, "Purchased", 3, 3, None, "2025-01-02T00:00:00Z");
    seed_purchase(&mut store, p, Some(1000), "2025-01-03T00:00:00Z");
    let archive = store.get_archive();
    assert_eq!(archive.len(), 1);
    assert_eq!(archive[0].item.id, p);
}

#[test]
fn archive_ordered_by_purchased_at_desc() {
    let mut store = WishStore::new();
    let list_id = seed_list(&mut store, "L", "2025-01-01T00:00:00Z");
    let first = seed_item(&mut store, list_id, "First", 3, 3, None, "2025-01-01T00:00:00Z");
    let second = seed_item(&mut store, list_id, "Second", 3, 3, None, "2025-01-02T00:00:00Z");
    seed_purchase(&mut store, first, None, "2025-01-03T00:00:00Z");
    seed_purchase(&mut store, second, None, "2025-01-04T00:00:00Z");
    let archive = store.get_archive();
    assert_eq!(archive[0].item.id, second, "most recently purchased first");
    assert_eq!(archive[1].item.id, first);
}

#[test]
fn archive_item_has_correct_fields() {
    let mut store = WishStore::new();
    let list_id = seed_list(&mut store, "L", "2025-01-01T00:00:00Z");
    let item_id = seed_item(&mut store, list_id, "Gadget", 4, 3, Some(2999), "2025-01-01T00:00:00Z");
    seed_purchase(&mut store, item_id, Some(2500), "2025-01-02T00:00:00Z");
    let archive = store.get_archive();
    assert_eq!(archive.len(), 1);
    let a = &archive[0];
    assert_eq!(a.item.name, "Gadget");
    assert_eq!(a.item.estimated_cost, Some(2999));
    assert_eq!(a.record.item_id, item_id);
    assert_eq!(a.record.actual_cost, Some(2500));
    assert_eq!(a.record.purchased_at, "2025-01-02T00:00:00Z");
}

#[test]
fn list_archive_isolated_to_list() {
    let mut store = WishStore::new();
    let list_a = seed_list(&mut store, "A", "2025-01-01T00:00:00Z");
    let list_b = seed_list(&mut store, "B", "2025-01-02T00:00:00Z");
    let item_a = seed_item(&mut store, list_a, "A", 3, 3, None, "2025-01-01T00:00:00Z");
    let item_b = seed_item(&mut store, list_b, "B", 3, 3, None, "2025-01-01T00:00:00Z");
    seed_purchase(&mut store, item_a, None, "2025-01-03T00:00:00Z");
    seed_purchase(&mut store, item_b, None, "2025-01-04T00:00:00Z");
    let archive_a = store.get_archive_for_list(list_a);
    assert_eq!(archive_a.len(), 1);
    assert_eq!(archive_a[0].item.id, item_a);
}

#[test]
fn list_archive_excludes_other_list_items() {
    let mut store = WishStore::new();
    let list_a = seed_list(&mut store, "A", "2025-01-01T00:00:00Z");
    let list_b = seed_list(&mut store, "B", "2025-01-02T00:00:00Z");
    let item_b = seed_item(&mut store, list_b, "B", 3, 3, None, "2025-01-01T00:00:00Z");
    seed_purchase(&mut store, item_b, None, "2025-01-03T00:00:00Z");
    assert!(store.get_archive_for_list(list_a).is_empty());
}

// ── Statistics ──────────────────────────────────────────────────────────

#[test]
fn list_stats_all_zeros_empty_list() {
    let mut store = WishStore::new();
    let list_id = seed_list(&mut store, "Empty", "2025-01-01T00:00:00Z");
    let st = store.get_list_stats(list_id);
    assert_eq!(st.active_count, 0);
    assert_eq!(st.purchased_count, 0);
    assert_eq!(st.pending_budget, 0);
    assert_eq!(st.total_spent, 0);
}

#[test]
fn list_stats_pending_budget_sums_active_estimated_costs() {
    let mut store = WishStore::new();
    let list_id = seed_list(&mut store, "L", "2025-01-01T00:00:00Z");
    seed_item(&mut store, list_id, "A", 3, 3, Some(10000), "2025-01-01T00:00:00Z");
    seed_item(&mut store, list_id, "B", 3, 3, Some(5000), "2025-01-02T00:00:00Z");
    assert_eq!(store.get_list_stats(list_id).pending_budget, 15000);
}

#[test]
fn list_stats_total_spent_sums_actual_costs() {
    let mut store = WishStore::new();
    let list_id = seed_list(&mut store, "L", "2025-01-01T00:00:00Z");
    let a = seed_item(&mut store, list_id, "A", 3, 3, None, "2025-01-01T00:00:00Z");
    let b = seed_item(&mut store, list_id, "B", 3, 3, None, "2025-01-02T00:00:00Z");
    seed_purchase(&mut store, a, Some(3000), "2025-01-03T00:00:00Z");
    seed_purchase(&mut store, b, Some(2000), "2025-01-04T00:00:00Z");
    assert_eq!(store.get_list_stats(list_id).total_spent, 5000);
}

#[test]
fn list_stats_null_costs_treated_as_zero() {
    let mut store = WishStore::new();
    let list_id = seed_list(&mut store, "L", "2025-01-01T00:00:00Z");
    let a = seed_item(&mut store, list_id, "A", 3, 3, None, "2025-01-01T00:00:00Z");
    seed_purchase(&mut store, a, None, "2025-01-02T00:00:00Z");
    assert_eq!(store.get_list_stats(list_id).total_spent, 0, "NULL actual_cost counts as zero");
}

#[test]
fn list_stats_counts_are_correct() {
    let mut store = WishStore::new();
    let list_id = seed_list(&mut store, "L", "2025-01-01T00:00:00Z");
    seed_item(&mut store, list_id, "A1", 3, 3, None, "2025-01-01T00:00:00Z");
    seed_item(&mut store, list_id, "A2", 3, 3, None, "2025-01-02T00:00:00Z");
    let p = seed_item(&mut store, list_id, "P1", 3, 3, None, "2025-01-03T00:00:00Z");
    seed_purchase(&mut store, p, None, "2025-01-04T00:00:00Z");
    let st = store.get_list_stats(list_id);
    assert_eq!(st.active_count, 2);
    assert_eq!(st.purchased_count, 1);
}

#[test]
fn list_stats_isolated_from_other_lists() {
    let mut store = WishStore::new();
    let list_a = seed_list(&mut store, "A", "2025-01-01T00:00:00Z");
    let list_b = seed_list(&mut store, "B", "2025-01-02T00:00:00Z");
    seed_item(&mut store, list_a, "Big", 3, 3, Some(99900), "2025-01-01T00:00:00Z");
    seed_item(&mut store, list_b, "Small", 3, 3, Some(100), "2025-01-01T00:00:00Z");
    let st = store.get_list_stats(list_b);
    assert_eq!(st.pending_budget, 100);
    assert_eq!(st.active_count, 1);
}

#[test]
fn global_stats_all_zeros_empty_db() {
    let store = WishStore::new();
    let st = store.get_stats();
    assert_eq!(st.active_count, 0);
    assert_eq!(st.purchased_count, 0);
    assert_eq!(st.pending_budget, 0);
    assert_eq!(st.total_spent, 0);
}

#[test]
fn global_stats_aggregates_across_all_lists() {
    let mut store = WishStore::new();
    let list_a = seed_list(&mut store, "A", "2025-01-01T00:00:00Z");
    let list_b = seed_list(&mut store, "B", "2025-01-02T00:00:00Z");
    seed_item(&mut store, list_a, "A1", 3, 3, Some(10000), "2025-01-01T00:00:00Z");
    seed_item(&mut store, list_b, "B1", 3, 3, Some(5000), "2025-01-01T00:00:00Z");
    let st = store.get_stats();
    assert_eq!(st.active_count, 2);
    assert_eq!(st.pending_budget, 15000);
}

#[test]
fn global_stats_consistency_with_list_stats() {
    let mut store = WishStore::new();
    let list_a = seed_list(&mut store, "A", "2025-01-01T00:00:00Z");
    let list_b = seed_list(&mut store, "B", "2025-01-02T00:00:00Z");
    let a1 = seed_item(&mut store, list_a, "A1", 3, 3, Some(8000), "2025-01-01T00:00:00Z");
    let b1 = seed_item(&mut store, list_b, "B1", 3, 3, Some(4000), "2025-01-01T00:00:00Z");
    seed_purchase(&mut store, a1, Some(7500), "2025-01-02T00:00:00Z");
    seed_purchase(&mut store, b1, Some(3500), "2025-01-03T00:00:00Z");
    let sa = store.get_list_stats(list_a);
    let sb = store.get_list_stats(list_b);
    let global = store.get_stats();
    assert_eq!(global.total_spent, sa.total_spent + sb.total_spent);
    assert_eq!(global.purchased_count, sa.purchased_count + sb.purchased_count);
}

// ── Errors and edges ────────────────────────────────────────────────────

#[test]
fn create_item_in_missing_list_is_refused() {
    let mut store = WishStore::new();
    let r = store.create_wish_item(
        7, s("X"), s(""), None, 1, 1, s(""), s(""), s(""), s("2025-01-01T00:00:00Z"),
    );
    assert_eq!(r, Err(WishError::ListNotFound));
    assert!(store.items().is_empty());
}

#[test]
fn transfer_to_missing_list_is_refused_and_changes_nothing() {
    let mut store = WishStore::new();
    let list_a = seed_list(&mut store, "A", "2025-01-01T00:00:00Z");
    let item = seed_item(&mut store, list_a, "Item", 3, 3, None, "2025-01-01T00:00:00Z");
    assert_eq!(store.transfer_wish_item(item, 4242), Err(WishError::ListNotFound));
    assert_eq!(item_by_id(&store, item).list_id, list_a);
}

#[test]
fn transfer_of_missing_item_is_a_no_op() {
    let mut store = WishStore::new();
    seed_list(&mut store, "A", "2025-01-01T00:00:00Z");
    assert_eq!(store.transfer_wish_item(99, 12345), Ok(()));
}

#[test]
fn mark_missing_item_is_refused() {
    let mut store = WishStore::new();
    assert_eq!(
        store.mark_as_purchased(5, Some(1), s(""), s("2025-01-01T00:00:00Z")),
        Err(WishError::ItemNotFound)
    );
    assert!(store.records().is_empty());
}

#[test]
fn rename_missing_list_changes_nothing() {
    let mut store = WishStore::new();
    let id = seed_list(&mut store, "Keep", "2025-01-01T00:00:00Z");
    store.rename_item_list(id + 1, s("Other"));
    assert_eq!(store.get_item_list(id).unwrap().name, "Keep");
}

#[test]
fn update_missing_item_changes_nothing() {
    let mut store = WishStore::new();
    let list_id = seed_list(&mut store, "L", "2025-01-01T00:00:00Z");
    let id = seed_item(&mut store, list_id, "Item", 3, 3, None, "2025-01-01T00:00:00Z");
    store.update_wish_item(id + 7, s("Changed"), s(""), None, 1, 1, s(""), s(""), s(""));
    assert_eq!(item_by_id(&store, id).name, "Item");
}

#[test]
fn ids_continue_after_largest_and_reuse_after_delete() {
    let mut store = WishStore::new();
    let list_id = seed_list(&mut store, "L", "2025-01-01T00:00:00Z");
    let a = seed_item(&mut store, list_id, "A", 1, 1, None, "2025-01-01T00:00:00Z");
    let b = seed_item(&mut store, list_id, "B", 1, 1, None, "2025-01-01T00:00:00Z");
    assert_eq!(a, 1);
    assert_eq!(b, 2);
    store.delete_wish_item(b);
    let c = seed_item(&mut store, list_id, "C", 1, 1, None, "2025-01-01T00:00:00Z");
    assert_eq!(c, 2);
}

#[test]
fn global_stats_equal_sum_of_list_stats_on_many_lists() {
    let mut store = WishStore::new();
    let l1 = seed_list(&mut store, "1", "2025-01-01T00:00:00Z");
    let l2 = seed_list(&mut store, "2", "2025-01-02T00:00:00Z");
    let l3 = seed_list(&mut store, "3", "2025-01-03T00:00:00Z");
    let x = seed_item(&mut store, l1, "x", 2, 2, Some(150), "2025-01-01T00:00:00Z");
    seed_item(&mut store, l2, "y", 2, 2, Some(-50), "2025-01-01T00:00:00Z");
    let z = seed_item(&mut store, l3, "z", 2, 2, None, "2025-01-01T00:00:00Z");
    seed_item(&mut store, l3, "w", 2, 2, Some(700), "2025-01-01T00:00:00Z");
    seed_purchase(&mut store, x, Some(120), "2025-01-05T00:00:00Z");
    seed_purchase(&mut store, z, Some(80), "2025-01-06T00:00:00Z");
    let g = store.get_stats();
    let parts: Vec<_> = [l1, l2, l3].iter().map(|l| store.get_list_stats(*l)).collect();
    assert_eq!(g.total_spent, parts.iter().map(|p| p.total_spent).sum::<i128>());
    assert_eq!(g.pending_budget, parts.iter().map(|p| p.pending_budget).sum::<i128>());
    assert_eq!(g.active_count, parts.iter().map(|p| p.active_count).sum::<u64>());
    assert_eq!(g.purchased_count, parts.iter().map(|p| p.purchased_count).sum::<u64>());
    assert_eq!(g.total_spent, 200);
    assert_eq!(g.pending_budget, 650);
}

#[test]
fn lists_with_stats_carry_counts_and_budgets() {
    let mut store = WishStore::new();
    let l1 = seed_list(&mut store, "Later", "2025-02-01T00:00:00Z");
    let l2 = seed_list(&mut store, "Earlier", "2025-01-01T00:00:00Z");
    seed_item(&mut store, l1, "a", 1, 1, Some(300), "2025-02-02T00:00:00Z");
    let b = seed_item(&mut store, l1, "b", 1, 1, Some(400), "2025-02-02T00:00:00Z");
    seed_purchase(&mut store, b, None, "2025-02-03T00:00:00Z");
    let lists = store.get_item_lists_with_stats();
    assert_eq!(lists.len(), 2);
    assert_eq!(lists[0].id, l2);
    assert_eq!(lists[0].active_count, 0);
    assert_eq!(lists[1].id, l1);
    assert_eq!(lists[1].active_count, 1);
    assert_eq!(lists[1].estimated_budget, 300);
}

#[test]
fn priority_ties_with_equal_times_keep_creation_order() {
    let mut store = WishStore::new();
    let l = seed_list(&mut store, "L", "2025-01-01T00:00:00Z");
    let a = seed_item(&mut store, l, "a", 2, 3, None, "2025-01-01T00:00:00Z");
    let b = seed_item(&mut store, l, "b", 3, 2, None, "2025-01-01T00:00:00Z");
    let items = store.get_wish_items(l);
    assert_eq!(items[0].id, a);
    assert_eq!(items[1].id, b);
}

#[test]
fn negative_levels_sort_by_their_product() {
    let mut store = WishStore::new();
    let l = seed_list(&mut store, "L", "2025-01-01T00:00:00Z");
    let neg = seed_item(&mut store, l, "neg", -2, 3, None, "2025-01-01T00:00:00Z");
    let pos = seed_item(&mut store, l, "pos", -2, -3, None, "2025-01-01T00:00:00Z");
    let big = seed_item(&mut store, l, "big", i64::MAX, i64::MAX, None, "2025-01-01T00:00:00Z");
    let items = store.get_wish_items(l);
    assert_eq!(items.iter().map(|w| w.id).collect::<Vec<_>>(), vec![big, pos, neg]);
}

#[test]
fn repeated_purchase_of_one_item_shows_twice_in_archive() {
    let mut store = WishStore::new();
    let l = seed_list(&mut store, "L", "2025-01-01T00:00:00Z");
    let a = seed_item(&mut store, l, "a", 1, 1, None, "2025-01-01T00:00:00Z");
    seed_purchase(&mut store, a, Some(10), "2025-01-02T00:00:00Z");
    seed_purchase(&mut store, a, Some(20), "2025-01-03T00:00:00Z");
    let archive = store.get_archive();
    assert_eq!(archive.len(), 2);
    assert_eq!(archive[0].record.actual_cost, Some(20));
    assert_eq!(store.get_list_stats(l).total_spent, 30);
    assert_eq!(store.get_list_stats(l).purchased_count, 1);
}

#[test]
fn spent_totals_match_archive_sums() {
    let mut store = WishStore::new();
    let l1 = seed_list(&mut store, "A", "2025-01-01T00:00:00Z");
    let l2 = seed_list(&mut store, "B", "2025-01-02T00:00:00Z");
    let a = seed_item(&mut store, l1, "a", 1, 1, Some(100), "2025-01-01T00:00:00Z");
    let b = seed_item(&mut store, l2, "b", 1, 1, Some(200), "2025-01-01T00:00:00Z");
    let c = seed_item(&mut store, l1, "c", 1, 1, None, "2025-01-01T00:00:00Z");
    seed_purchase(&mut store, a, Some(90), "2025-01-03T00:00:00Z");
    seed_purchase(&mut store, b, Some(210), "2025-01-04T00:00:00Z");
    seed_purchase(&mut store, c, None, "2025-01-05T00:00:00Z");
    let paid = |v: &Vec<wishr::model::ArchivedItem>| -> i128 {
        v.iter().map(|x| x.record.actual_cost.unwrap_or(0) as i128).sum()
    };
    assert_eq!(store.get_stats().total_spent, paid(&store.get_archive()));
    assert_eq!(store.get_list_stats(l1).total_spent, paid(&store.get_archive_for_list(l1)));
    assert_eq!(store.get_list_stats(l2).total_spent, 210);
}

#[test]
fn detail_equals_entry_in_lists_with_stats() {
    let mut store = WishStore::new();
    let l1 = seed_list(&mut store, "A", "2025-01-02T00:00:00Z");
    let l2 = seed_list(&mut store, "B", "2025-01-01T00:00:00Z");
    seed_item(&mut store, l1, "a", 2, 2, Some(1250), "2025-01-02T00:00:00Z");
    seed_item(&mut store, l2, "b", 2, 2, Some(300), "2025-01-02T00:00:00Z");
    let all = store.get_item_lists_with_stats();
    for id in [l1, l2] {
        let detail = store.get_item_list_detail(id).unwrap();
        let entries: Vec<_> = all.iter().filter(|s| s.id == id).collect();
        assert_eq!(entries.len(), 1);
        assert_eq!(entries[0].name, detail.name);
        assert_eq!(entries[0].active_count, detail.active_count);
        assert_eq!(entries[0].estimated_budget, detail.estimated_budget);
    }
    assert!(store.get_item_list_detail(9999).is_err());
    assert!(!all.iter().any(|s| s.id == 9999));
}

#[test]
fn list_archive_is_the_archive_restricted_to_the_list() {
    let mut store = WishStore::new();
    let l1 = seed_list(&mut store, "A", "2025-01-01T00:00:00Z");
    let l2 = seed_list(&mut store, "B", "2025-01-01T00:00:00Z");
    for (k, l) in [l1, l2, l1, l2, l1].iter().enumerate() {
        let i = seed_item(&mut store, *l, "x", 1, 1, None, "2025-01-01T00:00:00Z");
        seed_purchase(&mut store, i, Some(k as i64), &format!("2025-02-0{}T00:00:00Z", 5 - k));
    }
    let all = store.get_archive();
    let mine = store.get_archive_for_list(l1);
    let expected: Vec<i64> = all.iter().filter(|a| a.item.list_id == l1).map(|a| a.record.id).collect();
    assert_eq!(mine.iter().map(|a| a.record.id).collect::<Vec<_>>(), expected);
    assert_eq!(store.get_list_stats(l1).purchased_count as usize, mine.len());
    assert_eq!(store.get_stats().purchased_count as usize, all.len());
}
