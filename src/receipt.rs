//! Receipts and their score: the sum of the points that each rule awards.
use vstd::prelude::*;
use crate::rules::{
    alnum_chars, alnum_count, day_points, description_counts, description_points, odd_date,
    pair_points, price_points_of, time_check, time_points, total_points, total_points_of,
};

verus! {

/// One line of a receipt.
#[derive(Clone, Debug)]
pub struct Item {
    pub desc: String,
    pub price: String,
}

/// A submitted purchase: who sold it, when, what and for how much.
#[derive(Clone, Debug)]
pub struct Receipt {
    pub retailer: String,
    /// `YYYY-MM-DD`.
    pub date: String,
    /// `HH:MM`, on a 24-hour clock.
    pub time: String,
    pub items: Vec<Item>,
    /// A decimal amount.
    pub total: String,
}

pub open spec fn item_points(item: Item) -> nat {
    description_points(item.desc@, item.price@)
}

/// Description points summed over `items`.
pub open spec fn items_points(items: Seq<Item>) -> nat
    decreases items.len(),
{
    if items.len() == 0 {
        0
    } else {
        items_points(items.drop_last()) + item_points(items.last())
    }
}

/// The score of a receipt.
pub open spec fn points(r: Receipt) -> nat {
    alnum_count(r.retailer@) + total_points(r.total@) + pair_points(r.items@.len())
        + items_points(r.items@) + day_points(r.date@) + time_points(r.time@)
}

pub proof fn lemma_items_points_prefix(items: Seq<Item>, k: int)
    requires
        0 <= k <= items.len(),
    ensures
        items_points(items.take(k)) <= items_points(items),
    decreases items.len(),
{
    if k < items.len() {
        assert(items.drop_last().take(k) =~= items.take(k));
        lemma_items_points_prefix(items.drop_last(), k);
    } else {
        assert(items.take(k) =~= items);
    }
}

/// The points that one item earns by its description, if they fit in `u64`.
pub fn item_points_of(item: &Item) -> (r: Option<u64>)
    ensures
        r == if item_points(*item) <= u64::MAX {
            Some(item_points(*item) as u64)
        } else {
            None::<u64>
        },
{
    if description_counts(item.desc.as_str()) {
        price_points_of(item.price.as_str())
    } else {
        Some(0)
    }
}

/// The score of `receipt`, or `None` where it does not fit in `u64`.
pub fn score(receipt: &Receipt) -> (r: Option<u64>)
    ensures
        r == if points(*receipt) <= u64::MAX {
            Some(points(*receipt) as u64)
        } else {
            None::<u64>
        },
{
    let n = receipt.items.len();
    let pairs: u128 = 5 * (n as u128 / 2);
    let day: u128 = if odd_date(receipt.date.as_str()) {
        6
    } else {
        0
    };
    let time: u128 = if time_check(receipt.time.as_str()) {
        10
    } else {
        0
    };
    let mut sum: u128 = alnum_chars(receipt.retailer.as_str()) as u128 + total_points_of(
        receipt.total.as_str(),
    ) as u128 + pairs + day + time;
    let ghost base = sum;
    let ghost items = receipt.items@;
    if sum > 0xFFFF_FFFF_FFFF_FFFF {
        return None;
    }
    let mut i: usize = 0;
    assert(items.take(0) =~= Seq::<Item>::empty());
    while i < n
        invariant
            n == items.len(),
            items == receipt.items@,
            i <= n,
            base + items_points(items) == points(*receipt),
            sum == base + items_points(items.take(i as int)),
            sum <= u64::MAX,
        decreases n - i,
    {
        assert(items.take(i + 1).drop_last() =~= items.take(i as int));
        proof {
            lemma_items_points_prefix(items, i + 1);
        }
        match item_points_of(&receipt.items[i]) {
            None => {
                return None;
            },
            Some(x) => {
                sum = sum + x as u128;
                i += 1;
                if sum > 0xFFFF_FFFF_FFFF_FFFF {
                    return None;
                }
            },
        }
    }
    assert(items.take(n as int) =~= items);
    Some(sum as u64)
}

} // verus!
