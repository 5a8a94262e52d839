//! The rows of the application's three tables and the values its queries return.
//!
//! Money is held in whole cents: an estimated or paid cost of 29.99 is `2999`.

use vstd::prelude::*;

verus! {

/// Where an item stands: still wanted, or bought.
#[derive(Clone, Copy, Debug, PartialEq, Eq, Structural)]
pub enum ItemStatus {
    Active,
    Purchased,
}

impl ItemStatus {
    /// The text that the `status` column stores.
    pub fn as_text(&self) -> (r: &'static str)
        ensures
            r@ == match self {
                ItemStatus::Active => "active"@,
                ItemStatus::Purchased => "purchased"@,
            },
    {
        match self {
            ItemStatus::Active => "active",
            ItemStatus::Purchased => "purchased",
        }
    }

    /// The status that a `status` column text stands for, if any.
    pub fn from_text(text: &str) -> (r: Option<ItemStatus>)
        ensures
            r == if text@ == "active"@ {
                Some(ItemStatus::Active)
            } else if text@ == "purchased"@ {
                Some(ItemStatus::Purchased)
            } else {
                None
            },
    {
        let t = text.to_owned();
        if t == "active".to_owned() {
            Some(ItemStatus::Active)
        } else if t == "purchased".to_owned() {
            Some(ItemStatus::Purchased)
        } else {
            None
        }
    }
}

/// Why an operation of the store was refused.
#[derive(Clone, Copy, Debug, PartialEq, Eq, Structural)]
pub enum WishError {
    /// No list has the requested id.
    ListNotFound,
    /// No wish item has the requested id.
    ItemNotFound,
    /// The largest id of the table is already `i64::MAX`, so no next id exists.
    IdsExhausted,
    /// Rows handed to the store repeat an id, use an id below 1, or refer to
    /// a list or an item that is not there.
    InconsistentRows,
}

/// A named list of wishes.
#[derive(Debug)]
pub struct ItemList {
    pub id: i64,
    pub name: String,
    pub created_at: String,
}

/// A list with the number of its active items and their estimated budget.
#[derive(Debug)]
pub struct ItemListSummary {
    pub id: i64,
    pub name: String,
    pub created_at: String,
    pub active_count: u64,
    /// Sum of the estimated costs of the active items, in cents.
    pub estimated_budget: i128,
}

/// Something wanted, scored by want and need, in one list.
#[derive(Debug)]
pub struct WishItem {
    pub id: i64,
    pub list_id: i64,
    pub name: String,
    pub description: Option<String>,
    /// Estimated cost in cents.
    pub estimated_cost: Option<i64>,
    pub want_level: i64,
    pub need_level: i64,
    pub where_to_buy: Option<String>,
    pub category: Option<String>,
    pub notes: Option<String>,
    pub status: ItemStatus,
    pub created_at: String,
}

/// The purchase of an item: what it cost and when.
#[derive(Debug)]
pub struct PurchaseRecord {
    pub id: i64,
    pub item_id: i64,
    /// Paid cost in cents.
    pub actual_cost: Option<i64>,
    pub purchased_at: String,
    pub notes: Option<String>,
}

/// A bought item together with its purchase record.
#[derive(Debug)]
pub struct ArchivedItem {
    pub item: WishItem,
    pub record: PurchaseRecord,
}

/// Totals over a list, or over all lists.
#[derive(Clone, Copy, Debug, PartialEq, Eq, Structural)]
pub struct WishStats {
    /// Sum of the paid costs, in cents.
    pub total_spent: i128,
    /// Sum of the estimated costs of the active items, in cents.
    pub pending_budget: i128,
    pub active_count: u64,
    pub purchased_count: u64,
}

/// A copy of an optional text.
pub fn copy_text(t: &Option<String>) -> (r: Option<String>)
    ensures
        r == *t,
{
    match t {
        Some(s) => Some(s.clone()),
        None => None,
    }
}

impl Clone for ItemList {
    fn clone(&self) -> (r: Self)
        ensures
            r == *self,
    {
        ItemList { id: self.id, name: self.name.clone(), created_at: self.created_at.clone() }
    }
}

impl Clone for ItemListSummary {
    fn clone(&self) -> (r: Self)
        ensures
            r == *self,
    {
        ItemListSummary {
            id: self.id,
            name: self.name.clone(),
            created_at: self.created_at.clone(),
            active_count: self.active_count,
            estimated_budget: self.estimated_budget,
        }
    }
}

impl Clone for WishItem {
    fn clone(&self) -> (r: Self)
        ensures
            r == *self,
    {
        WishItem {
            id: self.id,
            list_id: self.list_id,
            name: self.name.clone(),
            description: copy_text(&self.description),
            estimated_cost: self.estimated_cost,
            want_level: self.want_level,
            need_level: self.need_level,
            where_to_buy: copy_text(&self.where_to_buy),
            category: copy_text(&self.category),
            notes: copy_text(&self.notes),
            status: self.status,
            created_at: self.created_at.clone(),
        }
    }
}

impl Clone for PurchaseRecord {
    fn clone(&self) -> (r: Self)
        ensures
            r == *self,
    {
        PurchaseRecord {
            id: self.id,
            item_id: self.item_id,
            actual_cost: self.actual_cost,
            purchased_at: self.purchased_at.clone(),
            notes: copy_text(&self.notes),
        }
    }
}

impl Clone for ArchivedItem {
    fn clone(&self) -> (r: Self)
        ensures
            r == *self,
    {
        ArchivedItem { item: self.item.clone(), record: self.record.clone() }
    }
}

} // verus!
