//! Executable comparisons and the stable insertion sort of each result type.

use vstd::prelude::*;
use crate::model::{ArchivedItem, ItemListSummary, WishItem};
use crate::sort::{is_insert_position, lemma_insert_sorted_at, sort_by};
use crate::tables::{
    archive_before, archive_order, item_before, item_order, priority, summary_before,
    summary_order,
};
use crate::text::text_less;

verus! {

/// `want_level * need_level`, computed without overflow.
fn priority_of(w: &WishItem) -> (p: i128)
    ensures
        p == priority(*w),
{
    let a = w.want_level as i128;
    let b = w.need_level as i128;
    proof {
        let x = w.want_level as int;
        let y = w.need_level as int;
        assert(-0x4000_0000_0000_0000_0000_0000_0000_0000 <= x * y <= 0x4000_0000_0000_0000_0000_0000_0000_0000)
            by (nonlinear_arith)
            requires
                -0x8000_0000_0000_0000 <= x <= 0x7fff_ffff_ffff_ffff,
                -0x8000_0000_0000_0000 <= y <= 0x7fff_ffff_ffff_ffff,
        {
            if x >= 0 && y >= 0 {
                assert(x * y <= 0x7fff_ffff_ffff_ffff * 0x7fff_ffff_ffff_ffff);
            } else if x < 0 && y < 0 {
                assert(x * y <= 0x8000_0000_0000_0000 * 0x8000_0000_0000_0000);
            } else if x < 0 {
                assert(x * y >= -0x8000_0000_0000_0000 * 0x7fff_ffff_ffff_ffff);
            } else {
                assert(x * y >= 0x7fff_ffff_ffff_ffff * -0x8000_0000_0000_0000);
            }
        }
    }
    a * b
}

/// Whether item `a` is listed ahead of item `b`.
pub fn item_precedes(a: &WishItem, b: &WishItem) -> (r: bool)
    ensures
        r == item_before(*a, *b),
{
    let pa = priority_of(a);
    let pb = priority_of(b);
    if pa != pb {
        pa > pb
    } else {
        text_less(&b.created_at, &a.created_at)
    }
}

/// Whether summary `a` is listed ahead of summary `b`.
pub fn summary_precedes(a: &ItemListSummary, b: &ItemListSummary) -> (r: bool)
    ensures
        r == summary_before(*a, *b),
{
    text_less(&a.created_at, &b.created_at)
}

/// Whether archived purchase `a` is listed ahead of `b`.
pub fn archive_precedes(a: &ArchivedItem, b: &ArchivedItem) -> (r: bool)
    ensures
        r == archive_before(*a, *b),
{
    text_less(&b.record.purchased_at, &a.record.purchased_at)
}

/// Items sorted by priority, then by creation time, both descending.
pub fn sort_items(v: Vec<WishItem>) -> (r: Vec<WishItem>)
    ensures
        r@ == sort_by(v@, item_order()),
{
    let mut out: Vec<WishItem> = Vec::new();
    let mut i: usize = 0;
    while i < v.len()
        invariant
            i <= v@.len(),
            out@ == sort_by(v@.take(i as int), item_order()),
        decreases v@.len() - i,
    {
        let x = v[i].clone();
        let mut p: usize = 0;
        while p < out.len() && !item_precedes(&x, &out[p])
            invariant
                p <= out@.len(),
                forall|k: int| 0 <= k < p ==> !item_order()(x, #[trigger] out@[k]),
            decreases out@.len() - p,
        {
            p = p + 1;
        }
        proof {
            assert(is_insert_position(out@, x, item_order(), p as int));
            lemma_insert_sorted_at(out@, x, item_order(), p as int);
            assert(v@.take(i + 1).drop_last() =~= v@.take(i as int));
            assert(out@.insert(p as int, x) =~= out@.take(p as int) + seq![x] + out@.skip(
                p as int,
            ));
        }
        out.insert(p, x);
        i = i + 1;
    }
    proof {
        assert(v@.take(i as int) =~= v@);
    }
    out
}

/// Summaries sorted by creation time, oldest first.
pub fn sort_summaries(v: Vec<ItemListSummary>) -> (r: Vec<ItemListSummary>)
    ensures
        r@ == sort_by(v@, summary_order()),
{
    let mut out: Vec<ItemListSummary> = Vec::new();
    let mut i: usize = 0;
    while i < v.len()
        invariant
            i <= v@.len(),
            out@ == sort_by(v@.take(i as int), summary_order()),
        decreases v@.len() - i,
    {
        let x = v[i].clone();
        let mut p: usize = 0;
        while p < out.len() && !summary_precedes(&x, &out[p])
            invariant
                p <= out@.len(),
                forall|k: int| 0 <= k < p ==> !summary_order()(x, #[trigger] out@[k]),
            decreases out@.len() - p,
        {
            p = p + 1;
        }
        proof {
            assert(is_insert_position(out@, x, summary_order(), p as int));
            lemma_insert_sorted_at(out@, x, summary_order(), p as int);
            assert(v@.take(i + 1).drop_last() =~= v@.take(i as int));
            assert(out@.insert(p as int, x) =~= out@.take(p as int) + seq![x] + out@.skip(
                p as int,
            ));
        }
        out.insert(p, x);
        i = i + 1;
    }
    proof {
        assert(v@.take(i as int) =~= v@);
    }
    out
}

/// Purchases sorted by time of purchase, most recent first.
pub fn sort_archive(v: Vec<ArchivedItem>) -> (r: Vec<ArchivedItem>)
    ensures
        r@ == sort_by(v@, archive_order()),
{
    let mut out: Vec<ArchivedItem> = Vec::new();
    let mut i: usize = 0;
    while i < v.len()
        invariant
            i <= v@.len(),
            out@ == sort_by(v@.take(i as int), archive_order()),
        decreases v@.len() - i,
    {
        let x = v[i].clone();
        let mut p: usize = 0;
        while p < out.len() && !archive_precedes(&x, &out[p])
            invariant
                p <= out@.len(),
                forall|k: int| 0 <= k < p ==> !archive_order()(x, #[trigger] out@[k]),
            decreases out@.len() - p,
        {
            p = p + 1;
        }
        proof {
            assert(is_insert_position(out@, x, archive_order(), p as int));
            lemma_insert_sorted_at(out@, x, archive_order(), p as int);
            assert(v@.take(i + 1).drop_last() =~= v@.take(i as int));
            assert(out@.insert(p as int, x) =~= out@.take(p as int) + seq![x] + out@.skip(
                p as int,
            ));
        }
        out.insert(p, x);
        i = i + 1;
    }
    proof {
        assert(v@.take(i as int) =~= v@);
    }
    out
}

} // verus!
