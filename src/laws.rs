//! Properties that hold of every receipt and of every history of the store.
use vstd::prelude::*;
use crate::receipt::{item_points, items_points, points, Item, Receipt};
use crate::rules::{
    alnum_count, day_points, description_fires, in_afternoon, is_odd_date, is_quarter_multiple,
    is_round_dollar, pair_points, price_points, time_points, total_points,
};
use crate::store::lookup;

verus! {

/// Two item lists with the same descriptions and prices, item by item.
pub open spec fn same_items(a: Seq<Item>, b: Seq<Item>) -> bool {
    &&& a.len() == b.len()
    &&& forall|i: int|
        0 <= i < a.len() ==> #[trigger] a[i].desc@ == b[i].desc@ && a[i].price@ == b[i].price@
}

pub open spec fn same_receipt(a: Receipt, b: Receipt) -> bool {
    &&& a.retailer@ == b.retailer@
    &&& a.date@ == b.date@
    &&& a.time@ == b.time@
    &&& a.total@ == b.total@
    &&& same_items(a.items@, b.items@)
}

/// The store's contents after each `(id, points)` of `puts`, in order, is
/// stored into `m`.
pub open spec fn replay(m: Map<Seq<char>, u64>, puts: Seq<(Seq<char>, u64)>) -> Map<
    Seq<char>,
    u64,
>
    decreases puts.len(),
{
    if puts.len() == 0 {
        m
    } else {
        replay(m, puts.drop_last()).insert(puts.last().0, puts.last().1)
    }
}

proof fn lemma_items_points_same(a: Seq<Item>, b: Seq<Item>)
    requires
        same_items(a, b),
    ensures
        items_points(a) == items_points(b),
    decreases a.len(),
{
    if a.len() > 0 {
        assert(a[a.len() - 1].desc@ == b[b.len() - 1].desc@);
        lemma_items_points_same(a.drop_last(), b.drop_last());
    }
}

proof fn lemma_items_points_one_change(a: Seq<Item>, b: Seq<Item>, k: int)
    requires
        a.len() == b.len(),
        0 <= k < a.len(),
        forall|i: int|
            0 <= i < a.len() && i != k ==> #[trigger] a[i].desc@ == b[i].desc@ && a[i].price@
                == b[i].price@,
    ensures
        items_points(a) + item_points(b[k]) == items_points(b) + item_points(a[k]),
    decreases a.len(),
{
    if k == a.len() - 1 {
        lemma_items_points_same(a.drop_last(), b.drop_last());
    } else {
        assert(a[a.len() - 1].desc@ == b[b.len() - 1].desc@);
        lemma_items_points_one_change(a.drop_last(), b.drop_last(), k);
    }
}

/// A score is never negative, and is at least what any one rule awards.
pub proof fn lemma_points_non_negative(r: Receipt)
    ensures
        points(r) >= 0,
        points(r) >= alnum_count(r.retailer@),
        points(r) >= total_points(r.total@),
        points(r) >= pair_points(r.items@.len()),
        points(r) >= items_points(r.items@),
        points(r) >= day_points(r.date@),
        points(r) >= time_points(r.time@),
{
}

/// Receipts with the same text in every field get the same score.
pub proof fn lemma_points_deterministic(a: Receipt, b: Receipt)
    requires
        same_receipt(a, b),
    ensures
        points(a) == points(b),
{
    lemma_items_points_same(a.items@, b.items@);
}

/// Changing only the retailer changes the score by the change in its count
/// of alphanumeric characters.
pub proof fn lemma_retailer_rule_alone(a: Receipt, b: Receipt)
    requires
        a.date@ == b.date@,
        a.time@ == b.time@,
        a.total@ == b.total@,
        same_items(a.items@, b.items@),
    ensures
        points(a) - alnum_count(a.retailer@) == points(b) - alnum_count(b.retailer@),
{
    lemma_items_points_same(a.items@, b.items@);
}

/// With every other field the same, an odd day of month adds exactly 6.
pub proof fn lemma_odd_day_rule_alone(a: Receipt, b: Receipt)
    requires
        a.retailer@ == b.retailer@,
        a.time@ == b.time@,
        a.total@ == b.total@,
        same_items(a.items@, b.items@),
        is_odd_date(a.date@),
        !is_odd_date(b.date@),
    ensures
        points(a) == points(b) + 6,
{
    lemma_items_points_same(a.items@, b.items@);
}

/// With every other field the same, a time in the afternoon window adds
/// exactly 10.
pub proof fn lemma_afternoon_rule_alone(a: Receipt, b: Receipt)
    requires
        a.retailer@ == b.retailer@,
        a.date@ == b.date@,
        a.total@ == b.total@,
        same_items(a.items@, b.items@),
        in_afternoon(a.time@),
        !in_afternoon(b.time@),
    ensures
        points(a) == points(b) + 10,
{
    lemma_items_points_same(a.items@, b.items@);
}

/// With every other field the same, and the quarter rule deciding alike, a
/// round total adds exactly 50.
pub proof fn lemma_round_dollar_rule_alone(a: Receipt, b: Receipt)
    requires
        a.retailer@ == b.retailer@,
        a.date@ == b.date@,
        a.time@ == b.time@,
        same_items(a.items@, b.items@),
        is_round_dollar(a.total@),
        !is_round_dollar(b.total@),
        is_quarter_multiple(a.total@) == is_quarter_multiple(b.total@),
    ensures
        points(a) == points(b) + 50,
{
    lemma_items_points_same(a.items@, b.items@);
}

/// With every other field the same, and the round-dollar rule deciding
/// alike, a total that is a multiple of a quarter adds exactly 25.
pub proof fn lemma_quarter_rule_alone(a: Receipt, b: Receipt)
    requires
        a.retailer@ == b.retailer@,
        a.date@ == b.date@,
        a.time@ == b.time@,
        same_items(a.items@, b.items@),
        is_quarter_multiple(a.total@),
        !is_quarter_multiple(b.total@),
        is_round_dollar(a.total@) == is_round_dollar(b.total@),
    ensures
        points(a) == points(b) + 25,
{
    lemma_items_points_same(a.items@, b.items@);
}

/// Adding to an odd number of items one that earns nothing by its
/// description completes a pair and adds exactly 5.
pub proof fn lemma_pair_rule_alone(a: Receipt, b: Receipt, extra: Item)
    requires
        a.retailer@ == b.retailer@,
        a.date@ == b.date@,
        a.time@ == b.time@,
        a.total@ == b.total@,
        same_items(a.items@, b.items@.push(extra)),
        b.items@.len() % 2 == 1,
        !description_fires(extra.desc@),
    ensures
        points(a) == points(b) + 5,
{
    let c = b.items@.push(extra);
    lemma_items_points_same(a.items@, c);
    assert(c.drop_last() =~= b.items@);
    assert(pair_points(c.len()) == pair_points(b.items@.len()) + 5);
}

/// Changing only the description of item `k` so that the description rule
/// fires adds exactly that item's price points.
pub proof fn lemma_description_rule_alone(a: Receipt, b: Receipt, k: int)
    requires
        a.retailer@ == b.retailer@,
        a.date@ == b.date@,
        a.time@ == b.time@,
        a.total@ == b.total@,
        a.items@.len() == b.items@.len(),
        0 <= k < a.items@.len(),
        forall|i: int|
            0 <= i < a.items@.len() && i != k ==> #[trigger] a.items@[i].desc@ == b.items@[i].desc@
                && a.items@[i].price@ == b.items@[i].price@,
        a.items@[k].price@ == b.items@[k].price@,
        description_fires(a.items@[k].desc@),
        !description_fires(b.items@[k].desc@),
    ensures
        points(a) == points(b) + price_points(a.items@[k].price@),
{
    let (x, y) = (a.items@, b.items@);
    assert forall|i: int| 0 <= i < x.len() && i != k implies #[trigger] x[i].desc@ == y[i].desc@
        && x[i].price@ == y[i].price@ by {
        assert(a.items@[i].desc@ == b.items@[i].desc@);
    }
    lemma_items_points_one_change(x, y, k);
}

proof fn lemma_replay_other(m: Map<Seq<char>, u64>, puts: Seq<(Seq<char>, u64)>, id: Seq<char>)
    requires
        forall|j: int| 0 <= j < puts.len() ==> (#[trigger] puts[j]).0 != id,
    ensures
        lookup(replay(m, puts), id) == lookup(m, id),
    decreases puts.len(),
{
    if puts.len() > 0 {
        let p = puts.drop_last();
        assert forall|j: int| 0 <= j < p.len() implies (#[trigger] p[j]).0 != id by {
            assert(p[j] == puts[j]);
        }
        lemma_replay_other(m, p, id);
    }
}

/// Once `s` is stored under `id`, a lookup of `id` finds `s`, whatever is
/// stored afterwards under other identifiers.
pub proof fn lemma_put_then_get(
    m: Map<Seq<char>, u64>,
    id: Seq<char>,
    s: u64,
    later: Seq<(Seq<char>, u64)>,
)
    requires
        forall|j: int| 0 <= j < later.len() ==> (#[trigger] later[j]).0 != id,
    ensures
        lookup(replay(m.insert(id, s), later), id) == Some(s),
{
    lemma_replay_other(m.insert(id, s), later, id);
}

/// A store that started empty knows nothing of an identifier never stored.
pub proof fn lemma_unknown_before_put(puts: Seq<(Seq<char>, u64)>, id: Seq<char>)
    requires
        forall|j: int| 0 <= j < puts.len() ==> (#[trigger] puts[j]).0 != id,
    ensures
        lookup(replay(Map::empty(), puts), id) is None,
{
    lemma_replay_other(Map::empty(), puts, id);
}

} // verus!
