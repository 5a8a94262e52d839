use wishr::model::{ItemListSummary, ItemStatus, WishError, WishItem, PurchaseRecord, ItemList};
use wishr::store::WishStore;
use wishr::text::{is_blank, none_if_empty, text_less, trimmed};
use wishr::ui::{
    count_suffix, default_move_target, id_param_or, is_web_link, other_lists, parse_i64,
    purchase_date, validate_item_name, FormError, form_step, new_list_step, FormState, FormEvent,
    FormAction, NewListState, NewListEvent, NewListAction,
};

fn summary(id: i64, name: &str) -> ItemListSummary {
    ItemListSummary {
        id,
        name: name.to_string(),
        created_at: "2025-01-01T00:00:00Z".to_string(),
        active_count: 0,
        estimated_budget: 0,
    }
}

#[test]
fn trimming_removes_unicode_white_space_at_both_ends() {
    assert_eq!(trimmed("  a b  "), "a b");
    assert_eq!(trimmed("\u{3000}\t x\n\u{a0}"), "x");
    assert_eq!(trimmed("   "), "");
    assert_eq!(trimmed(&trimmed("  q ")), "q");
}

#[test]
fn blank_names_are_detected() {
    assert!(is_blank(""));
    assert!(is_blank(" \t\n"));
    assert!(!is_blank(" x "));
}

#[test]
fn empty_form_text_becomes_none() {
    assert_eq!(none_if_empty(String::new()), None);
    assert_eq!(none_if_empty(" ".to_string()), Some(" ".to_string()));
}

#[test]
fn text_order_is_byte_order() {
    let a = "2025-01-01T00:00:00Z".to_string();
    let b = "2025-01-02T00:00:00Z".to_string();
    assert!(text_less(&a, &b));
    assert!(!text_less(&b, &a));
    assert!(!text_less(&a, &a));
    assert!(text_less(&"ab".to_string(), &"abc".to_string()));
    assert!(text_less(&"Z".to_string(), &"a".to_string()));
    assert!(text_less(&"z".to_string(), &"é".to_string()));
}

#[test]
fn parse_reads_like_std() {
    for t in ["0", "42", "-7", "+9", "007", "9223372036854775807", "-9223372036854775808", "", "-", "+", "1a", " 1", "9223372036854775808", "-9223372036854775809", "+-1", "١"] {
        assert_eq!(parse_i64(t), t.parse::<i64>().ok(), "input {:?}", t);
    }
}

#[test]
fn route_ids_fall_back() {
    assert_eq!(id_param_or(Some("12"), 0), 12);
    assert_eq!(id_param_or(Some("x"), 1), 1);
    assert_eq!(id_param_or(None, 1), 1);
}

#[test]
fn count_label_is_singular_for_one() {
    assert_eq!(count_suffix(1), " item");
    assert_eq!(count_suffix(0), " items");
    assert_eq!(count_suffix(2), " items");
}

#[test]
fn links_start_with_http() {
    assert!(is_web_link("https://shop.example"));
    assert!(is_web_link("http"));
    assert!(!is_web_link("shop.com"));
    assert!(!is_web_link("htt"));
}

#[test]
fn purchase_date_is_the_part_before_t() {
    assert_eq!(purchase_date("2025-01-02T00:00:00Z"), "2025-01-02");
    assert_eq!(purchase_date("2025-01-02"), "2025-01-02");
    assert_eq!(purchase_date("T12"), "");
}

#[test]
fn item_form_needs_a_name() {
    assert_eq!(validate_item_name("  "), Err(FormError::NameRequired));
    assert_eq!(FormError::NameRequired.message(), "Name is required.");
    assert_eq!(validate_item_name(" Lego "), Ok(()));
}

#[test]
fn move_targets_exclude_the_current_list() {
    let all = vec![summary(1, "a"), summary(2, "b"), summary(3, "c")];
    let others = other_lists(&all, 2);
    assert_eq!(others.iter().map(|l| l.id).collect::<Vec<_>>(), vec![1, 3]);
    assert_eq!(default_move_target(&others), 1);
    assert_eq!(default_move_target(&other_lists(&vec![summary(4, "d")], 4)), 0);
}

#[test]
fn status_text_round_trips() {
    assert_eq!(ItemStatus::from_text("active"), Some(ItemStatus::Active));
    assert_eq!(ItemStatus::from_text("purchased"), Some(ItemStatus::Purchased));
    assert_eq!(ItemStatus::from_text("Active"), None);
    assert_eq!(ItemStatus::Purchased.as_text(), "purchased");
}

fn list(id: i64) -> ItemList {
    ItemList { id, name: format!("L{}", id), created_at: "2025-01-01T00:00:00Z".to_string() }
}

fn item(id: i64, list_id: i64) -> WishItem {
    WishItem {
        id,
        list_id,
        name: "i".to_string(),
        description: None,
        estimated_cost: Some(100),
        want_level: 1,
        need_level: 1,
        where_to_buy: None,
        category: None,
        notes: None,
        status: ItemStatus::Active,
        created_at: "2025-01-01T00:00:00Z".to_string(),
    }
}

fn record(id: i64, item_id: i64) -> PurchaseRecord {
    PurchaseRecord {
        id,
        item_id,
        actual_cost: Some(5),
        purchased_at: "2025-01-02T00:00:00Z".to_string(),
        notes: None,
    }
}

#[test]
fn rows_are_accepted_only_when_consistent() {
    assert!(WishStore::from_rows(vec![list(1)], vec![item(3, 1)], vec![record(9, 3)]).is_ok());
    let dup = WishStore::from_rows(vec![list(1), list(1)], vec![], vec![]);
    assert_eq!(dup.err(), Some(WishError::InconsistentRows));
    let zero = WishStore::from_rows(vec![list(0)], vec![], vec![]);
    assert_eq!(zero.err(), Some(WishError::InconsistentRows));
    let orphan_item = WishStore::from_rows(vec![list(1)], vec![item(3, 2)], vec![]);
    assert_eq!(orphan_item.err(), Some(WishError::InconsistentRows));
    let orphan_record = WishStore::from_rows(vec![list(1)], vec![item(3, 1)], vec![record(1, 4)]);
    assert_eq!(orphan_record.err(), Some(WishError::InconsistentRows));
}

#[test]
fn loaded_rows_answer_queries() {
    let store = WishStore::from_rows(vec![list(1), list(2)], vec![item(3, 1), item(4, 2)], vec![]).unwrap();
    assert_eq!(store.get_list_stats(2).pending_budget, 100);
    assert_eq!(store.get_stats().active_count, 2);
}

#[test]
fn ids_exhausted_when_largest_id_is_max() {
    let mut store = WishStore::from_rows(vec![list(i64::MAX)], vec![item(i64::MAX, i64::MAX)], vec![record(i64::MAX, i64::MAX)]).unwrap();
    assert_eq!(
        store.create_item_list("x".to_string(), "t".to_string()),
        Err(WishError::IdsExhausted)
    );
    assert_eq!(
        store.create_wish_item(i64::MAX, "x".to_string(), String::new(), None, 1, 1, String::new(), String::new(), String::new(), "t".to_string()),
        Err(WishError::IdsExhausted)
    );
    assert_eq!(
        store.mark_as_purchased(i64::MAX, None, String::new(), "t".to_string()),
        Err(WishError::IdsExhausted)
    );
    assert_eq!(store.lists().len(), 1);
    assert_eq!(store.items()[0].status, ItemStatus::Active);
}

#[test]
fn operations_keep_the_given_time_stamps() {
    let mut store = WishStore::new();
    let l = store.create_item_list(" Tech ".to_string(), "2025-05-01T08:00:00+00:00".to_string()).unwrap();
    let lst = store.get_item_list(l).unwrap();
    assert_eq!(lst.name, "Tech");
    assert_eq!(lst.created_at, "2025-05-01T08:00:00+00:00");
    let i = store
        .create_wish_item(l, "Phone".to_string(), String::new(), Some(50000), 4, 5, String::new(), String::new(), String::new(), "2025-05-02T08:00:00+00:00".to_string())
        .unwrap();
    assert_eq!(store.get_wish_item(i).unwrap().created_at, "2025-05-02T08:00:00+00:00");
    store.mark_as_purchased(i, Some(45000), "sale".to_string(), "2025-05-03T08:00:00+00:00".to_string()).unwrap();
    assert_eq!(store.get_list_stats(l).total_spent, 45000);
    assert_eq!(store.get_archive()[0].record.notes.as_deref(), Some("sale"));
    assert_eq!(store.get_archive()[0].record.purchased_at, "2025-05-03T08:00:00+00:00");
}

#[test]
fn item_form_refuses_a_blank_name_and_saves_any_other() {
    let idle = FormState { submitting: false, error: None };
    let (s, a) = form_step(idle.clone(), FormEvent::Submitted { name: " \t ".to_string() }, 4);
    assert_eq!(a, FormAction::Stay);
    assert!(!s.submitting);
    assert_eq!(s.error.as_deref(), Some("Name is required."));

    let (s, a) = form_step(s, FormEvent::Submitted { name: "Kite".to_string() }, 4);
    assert_eq!(a, FormAction::Save);
    assert!(s.submitting);
    // the earlier message stays until the save answers
    assert_eq!(s.error.as_deref(), Some("Name is required."));
}

#[test]
fn item_form_leads_to_the_list_or_shows_the_failure() {
    let busy = FormState { submitting: true, error: None };
    let (_, a) = form_step(busy.clone(), FormEvent::Saved, 7);
    assert_eq!(a, FormAction::ShowList { list_id: 7 });

    let (s, a) = form_step(busy, FormEvent::SaveFailed { message: "list not found".to_string() }, 7);
    assert_eq!(a, FormAction::Stay);
    assert!(!s.submitting);
    assert_eq!(s.error.as_deref(), Some("list not found"));
}

#[test]
fn new_list_form_creates_then_clears_and_reloads() {
    let blank = NewListState { name: "   ".to_string(), creating: false, error: Some("old".to_string()) };
    let (s, a) = new_list_step(blank, NewListEvent::Submitted);
    assert_eq!(a, NewListAction::Stay);
    assert_eq!(s.name, "   ");
    assert_eq!(s.error.as_deref(), Some("old"));

    let typed = NewListState { name: "Books".to_string(), creating: false, error: Some("old".to_string()) };
    let (s, a) = new_list_step(typed, NewListEvent::Submitted);
    assert_eq!(a, NewListAction::Create);
    assert!(s.creating);
    assert_eq!(s.error, None);
    assert_eq!(s.name, "Books");

    let (done, a) = new_list_step(s.clone(), NewListEvent::Created);
    assert_eq!(a, NewListAction::Reload);
    assert_eq!(done.name, "");
    assert!(!done.creating);

    let (failed, a) = new_list_step(s, NewListEvent::CreateFailed { message: "busy".to_string() });
    assert_eq!(a, NewListAction::Stay);
    assert_eq!(failed.name, "Books");
    assert!(!failed.creating);
    assert_eq!(failed.error.as_deref(), Some("busy"));
}
