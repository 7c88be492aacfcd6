//! Selecting the kept price levels of one side of the book.
//!
//! Raw levels arrive as parsed price and quantity keys (`None` where a string did
//! not parse). A level counts when both keys are those of a value above zero.
//! The selection keeps at most `limit` levels, best first: the highest prices for
//! bids, the lowest for asks.

use vstd::prelude::*;

use crate::types::{is_positive_key, PriceLevel, PriceOrder};

verus! {

broadcast use vstd::seq_lib::group_to_multiset_ensures;

/// A level as it arrives: the parsed price key and the parsed quantity key.
pub type RawLevel = (Option<u64>, Option<u64>);

pub open spec fn price_ok(e: RawLevel) -> bool {
    e.0 matches Some(p) && is_positive_key(p)
}

pub open spec fn level_ok(e: RawLevel) -> bool {
    &&& price_ok(e)
    &&& e.1 matches Some(q) && is_positive_key(q)
}

pub open spec fn raw_price(e: RawLevel) -> u64 {
    e.0->Some_0
}

pub open spec fn to_level(e: RawLevel) -> PriceLevel {
    PriceLevel { price_bits: e.0->Some_0, quantity_bits: e.1->Some_0 }
}

/// The levels of `s` that count, in their order.
pub open spec fn valid_levels(s: Seq<RawLevel>) -> Seq<PriceLevel>
    decreases s.len(),
{
    if s.len() == 0 {
        Seq::empty()
    } else if level_ok(s.last()) {
        valid_levels(s.drop_last()).push(to_level(s.last()))
    } else {
        valid_levels(s.drop_last())
    }
}

/// Every two prices that parse above zero are in non-decreasing order.
pub open spec fn never_falls(s: Seq<RawLevel>) -> bool {
    forall|i: int, j: int|
        0 <= i < j < s.len() && price_ok(#[trigger] s[i]) && price_ok(#[trigger] s[j]) ==> raw_price(
            s[i],
        ) <= raw_price(s[j])
}

/// Every two prices that parse above zero are in non-increasing order.
pub open spec fn never_rises(s: Seq<RawLevel>) -> bool {
    forall|i: int, j: int|
        0 <= i < j < s.len() && price_ok(#[trigger] s[i]) && price_ok(#[trigger] s[j]) ==> raw_price(
            s[i],
        ) >= raw_price(s[j])
}

pub open spec fn rises_at(s: Seq<RawLevel>, i: int, j: int) -> bool {
    &&& 0 <= i < j < s.len()
    &&& price_ok(s[i])
    &&& price_ok(s[j])
    &&& raw_price(s[i]) < raw_price(s[j])
}

pub open spec fn falls_at(s: Seq<RawLevel>, i: int, j: int) -> bool {
    &&& 0 <= i < j < s.len()
    &&& price_ok(s[i])
    &&& price_ok(s[j])
    &&& raw_price(s[i]) > raw_price(s[j])
}

/// The direction in which the parseable prices of `s` are listed: ascending when they
/// never fall and rise at least once, descending when they never rise and fall at
/// least once, unknown otherwise (all equal, none, or mixed).
pub open spec fn price_order(s: Seq<RawLevel>) -> PriceOrder {
    if never_falls(s) && exists|i: int, j: int| rises_at(s, i, j) {
        PriceOrder::Ascending
    } else if never_rises(s) && exists|i: int, j: int| falls_at(s, i, j) {
        PriceOrder::Descending
    } else {
        PriceOrder::Unknown
    }
}

/// The listing direction from the parseable prices: prices that rise from each to
/// every later one make an ascending listing, prices that fall make a descending one,
/// and a listing whose parseable prices are all equal has no direction.
pub proof fn lemma_price_order_direction(s: Seq<RawLevel>, i0: int, j0: int)
    requires
        0 <= i0 < j0 < s.len(),
        price_ok(s[i0]),
        price_ok(s[j0]),
    ensures
        (forall|i: int, j: int|
            0 <= i < j < s.len() && price_ok(#[trigger] s[i]) && price_ok(#[trigger] s[j])
                ==> raw_price(s[i]) < raw_price(s[j])) ==> price_order(s) == PriceOrder::Ascending,
        (forall|i: int, j: int|
            0 <= i < j < s.len() && price_ok(#[trigger] s[i]) && price_ok(#[trigger] s[j])
                ==> raw_price(s[i]) > raw_price(s[j])) ==> price_order(s) == PriceOrder::Descending,
        (forall|i: int, j: int|
            0 <= i < j < s.len() && price_ok(#[trigger] s[i]) && price_ok(#[trigger] s[j])
                ==> raw_price(s[i]) == raw_price(s[j])) ==> price_order(s) == PriceOrder::Unknown,
        raw_price(s[i0]) < raw_price(s[j0]) ==> price_order(s) != PriceOrder::Descending,
        raw_price(s[i0]) > raw_price(s[j0]) ==> price_order(s) != PriceOrder::Ascending,
{
    assert(raw_price(s[i0]) < raw_price(s[j0]) ==> rises_at(s, i0, j0));
    assert(raw_price(s[i0]) > raw_price(s[j0]) ==> falls_at(s, i0, j0));
}

fn key_of(e: &RawLevel) -> (res: Option<u64>)
    ensures
        res is Some <==> price_ok(*e),
        res matches Some(p) ==> p == raw_price(*e),
{
    match e.0 {
        Some(p) => if 1 <= p && p <= crate::types::POSITIVE_INFINITY_BITS {
            Some(p)
        } else {
            None
        },
        None => None,
    }
}

/// Detects in which direction the exchange listed the levels.
pub fn detect_price_order(levels: &Vec<RawLevel>) -> (res: PriceOrder)
    ensures
        res == price_order(levels@),
{
    let ghost s = levels@;
    let mut prev: Option<u64> = None;
    let ghost mut prev_idx: int = -1;
    let ghost mut wit_i: int = 0;
    let ghost mut wit_j: int = 0;
    let mut direction = PriceOrder::Unknown;
    let n = levels.len();
    let mut k: usize = 0;
    while k < n
        invariant
            n == s.len(),
            s == levels@,
            k <= n,
            prev is None <==> prev_idx == -1,
            prev is None ==> forall|j: int| 0 <= j < k ==> !price_ok(#[trigger] s[j]),
            prev matches Some(p) ==> {
                &&& 0 <= prev_idx < k
                &&& price_ok(s[prev_idx])
                &&& raw_price(s[prev_idx]) == p
                &&& forall|j: int| prev_idx < j < k ==> !price_ok(#[trigger] s[j])
            },
            direction == PriceOrder::Unknown ==> forall|a: int, b: int|
                0 <= a < b < k && price_ok(#[trigger] s[a]) && price_ok(#[trigger] s[b]) ==> raw_price(
                    s[a],
                ) == raw_price(s[b]),
            direction == PriceOrder::Ascending ==> {
                &&& rises_at(s, wit_i, wit_j)
                &&& wit_j < k
                &&& forall|a: int, b: int|
                    0 <= a < b < k && price_ok(#[trigger] s[a]) && price_ok(#[trigger] s[b])
                        ==> raw_price(s[a]) <= raw_price(s[b])
            },
            direction == PriceOrder::Descending ==> {
                &&& falls_at(s, wit_i, wit_j)
                &&& wit_j < k
                &&& forall|a: int, b: int|
                    0 <= a < b < k && price_ok(#[trigger] s[a]) && price_ok(#[trigger] s[b])
                        ==> raw_price(s[a]) >= raw_price(s[b])
            },
        decreases n - k,
    {
        let cur = key_of(&levels[k]);
        if let Some(price) = cur {
            if let Some(prev_price) = prev {
                if direction == PriceOrder::Unknown {
                    if price > prev_price {
                        direction = PriceOrder::Ascending;
                        proof {
                            wit_i = prev_idx;
                            wit_j = k as int;
                        }
                    } else if price < prev_price {
                        direction = PriceOrder::Descending;
                        proof {
                            wit_i = prev_idx;
                            wit_j = k as int;
                        }
                    }
                } else if (direction == PriceOrder::Ascending && price < prev_price) || (direction
                    == PriceOrder::Descending && price > prev_price) {
                    proof {
                        if direction == PriceOrder::Ascending {
                            assert(falls_at(s, prev_idx, k as int));
                            assert(!never_falls(s)) by {
                                assert(price_ok(s[prev_idx]) && price_ok(s[k as int]));
                            }
                            assert(!never_rises(s)) by {
                                assert(price_ok(s[wit_i]) && price_ok(s[wit_j]));
                            }
                        } else {
                            assert(rises_at(s, prev_idx, k as int));
                            assert(!never_rises(s)) by {
                                assert(price_ok(s[prev_idx]) && price_ok(s[k as int]));
                            }
                            assert(!never_falls(s)) by {
                                assert(price_ok(s[wit_i]) && price_ok(s[wit_j]));
                            }
                        }
                    }
                    return PriceOrder::Unknown;
                }
            }
            prev = Some(price);
            proof {
                prev_idx = k as int;
            }
        }
        k = k + 1;
    }
    proof {
        if direction == PriceOrder::Unknown {
            assert forall|i: int, j: int| !rises_at(s, i, j) && !falls_at(s, i, j) by {
                if 0 <= i < j < s.len() && price_ok(s[i]) && price_ok(s[j]) {
                    assert(raw_price(s[i]) == raw_price(s[j]));
                }
            }
        } else if direction == PriceOrder::Ascending {
            assert(rises_at(s, wit_i, wit_j));
        } else {
            assert(falls_at(s, wit_i, wit_j));
            assert(!never_falls(s)) by {
                assert(price_ok(s[wit_i]) && price_ok(s[wit_j]));
            }
        }
    }
    direction
}


/// Whether price key `a` is a better quote than `b` on that side: higher for bids,
/// lower for asks.
pub open spec fn better(bid: bool, a: u64, b: u64) -> bool {
    if bid {
        a > b
    } else {
        a < b
    }
}

/// Listed best first: no level is better than a level before it.
pub open spec fn best_first(bid: bool, s: Seq<PriceLevel>) -> bool {
    forall|i: int, j: int|
        0 <= i < j < s.len() ==> !better(bid, #[trigger] s[j].price_bits, #[trigger] s[i].price_bits)
}

/// Every level has a price and a quantity above zero.
pub open spec fn all_positive(s: Seq<PriceLevel>) -> bool {
    forall|i: int| 0 <= i < s.len() ==> #[trigger] level_positive(s[i])
}

/// A level with a price and a quantity above zero.
pub open spec fn level_positive(l: PriceLevel) -> bool {
    is_positive_key(l.price_bits) && is_positive_key(l.quantity_bits)
}

/// `kept` holds the best levels of `from`: a sub-multiset of it, and every level
/// left out is no better than any level kept.
pub open spec fn keeps_best(bid: bool, from: Seq<PriceLevel>, kept: Seq<PriceLevel>) -> bool {
    &&& kept.to_multiset().subset_of(from.to_multiset())
    &&& forall|x: PriceLevel, y: PriceLevel|
        #[trigger] from.to_multiset().count(x) > kept.to_multiset().count(x) && #[trigger] kept.contains(y)
            ==> !better(bid, x.price_bits, y.price_bits)
}

pub open spec fn min_nat(a: int, b: int) -> int {
    if a <= b {
        a
    } else {
        b
    }
}

/// Whether the exchange's listing order already puts the best level first.
pub open spec fn listed_best_first(bid: bool, order: PriceOrder) -> bool {
    (bid && order == PriceOrder::Descending) || (!bid && order == PriceOrder::Ascending)
}

/// Whether the exchange's listing order puts the best level last.
pub open spec fn listed_best_last(bid: bool, order: PriceOrder) -> bool {
    (bid && order == PriceOrder::Ascending) || (!bid && order == PriceOrder::Descending)
}

/// What one side of the book holds after it is set from `levels`, keeping at most
/// `max_levels` (and never more than `MAX_LEVELS`) levels.
pub open spec fn selected(
    levels: Seq<RawLevel>,
    max_levels: usize,
    bid: bool,
    res: Seq<PriceLevel>,
) -> bool {
    let limit = min_nat(max_levels as int, crate::types::MAX_LEVELS as int);
    let valid = valid_levels(levels);
    let k = min_nat(limit, valid.len() as int);
    let order = price_order(levels);
    &&& res.len() == k
    &&& best_first(bid, res)
    &&& all_positive(res)
    &&& listed_best_first(bid, order) ==> res == valid.take(k)
    &&& listed_best_last(bid, order) ==> res == valid.reverse().take(k)
    &&& order == PriceOrder::Unknown ==> keeps_best(bid, valid, res)
    &&& order == PriceOrder::Unknown ==> res == stable_sorted(stream_keep(valid, limit as nat, bid), bid)
}

fn is_better(bid: bool, a: u64, b: u64) -> (res: bool)
    ensures
        res == better(bid, a, b),
{
    if bid {
        a > b
    } else {
        a < b
    }
}

fn level_of(e: &RawLevel) -> (res: Option<PriceLevel>)
    ensures
        res is Some <==> level_ok(*e),
        res matches Some(l) ==> l == to_level(*e),
{
    match (e.0, e.1) {
        (Some(p), Some(q)) => {
            if 1 <= p && p <= crate::types::POSITIVE_INFINITY_BITS && 1 <= q && q
                <= crate::types::POSITIVE_INFINITY_BITS {
                Some(PriceLevel { price_bits: p, quantity_bits: q })
            } else {
                None
            }
        },
        _ => None,
    }
}

/// The levels that count are exactly the listed levels with a price and a quantity
/// above zero, in listing order: none of them is empty or negative, a listing of
/// such levels counts whole, and a level failing either test never counts.
pub proof fn lemma_valid_levels_positive(s: Seq<RawLevel>)
    ensures
        all_positive(valid_levels(s)),
        valid_levels(s).len() <= s.len(),
        (forall|i: int| 0 <= i < s.len() ==> #[trigger] level_ok(s[i])) ==> valid_levels(s)
            == s.map_values(|e: RawLevel| to_level(e)),
        s.len() > 0 && !level_ok(s.last()) ==> valid_levels(s) == valid_levels(s.drop_last()),
    decreases s.len(),
{
    if s.len() > 0 {
        lemma_valid_levels_positive(s.drop_last());
        if forall|i: int| 0 <= i < s.len() ==> #[trigger] level_ok(s[i]) {
            let d = s.drop_last();
            assert forall|i: int| 0 <= i < d.len() implies #[trigger] level_ok(d[i]) by {
                assert(d[i] == s[i]);
            }
            assert(level_ok(s[s.len() - 1]));
            assert(s.map_values(|e: RawLevel| to_level(e)) =~= d.map_values(|e: RawLevel| to_level(e)).push(
                to_level(s.last()),
            ));
        }
    }
}

spec fn head_level(x: RawLevel) -> Seq<PriceLevel> {
    if level_ok(x) {
        seq![to_level(x)]
    } else {
        Seq::empty()
    }
}

proof fn lemma_valid_levels_prepend(x: RawLevel, u: Seq<RawLevel>)
    ensures
        valid_levels(seq![x] + u) == head_level(x) + valid_levels(u),
    decreases u.len(),
{
    let xu = seq![x] + u;
    if u.len() == 0 {
        assert(xu =~= seq![x]);
        assert(xu.drop_last() =~= Seq::<RawLevel>::empty());
        assert(xu.last() == x);
        assert(valid_levels(Seq::<RawLevel>::empty()) == Seq::<PriceLevel>::empty());
        assert(head_level(x) + valid_levels(u) =~= head_level(x));
        if level_ok(x) {
            assert(Seq::<PriceLevel>::empty().push(to_level(x)) =~= seq![to_level(x)]);
        }
    } else {
        assert(xu.drop_last() =~= seq![x] + u.drop_last());
        assert(xu.last() == u.last());
        lemma_valid_levels_prepend(x, u.drop_last());
        let rest = valid_levels(u.drop_last());
        if level_ok(u.last()) {
            assert(valid_levels(u) == rest.push(to_level(u.last())));
            assert((head_level(x) + rest).push(to_level(u.last())) =~= head_level(x) + rest.push(
                to_level(u.last()),
            ));
        } else {
            assert(valid_levels(u) == rest);
        }
    }
}

proof fn lemma_valid_levels_reverse(s: Seq<RawLevel>)
    ensures
        valid_levels(s.reverse()) == valid_levels(s).reverse(),
    decreases s.len(),
{
    if s.len() == 0 {
        assert(s.reverse() =~= s);
        assert(valid_levels(s).reverse() =~= Seq::<PriceLevel>::empty());
    } else {
        let t = s.drop_last();
        let x = s.last();
        assert(s.reverse() =~= seq![x] + t.reverse());
        lemma_valid_levels_prepend(x, t.reverse());
        lemma_valid_levels_reverse(t);
        let vt = valid_levels(t);
        assert(valid_levels(s.reverse()) == head_level(x) + vt.reverse());
        if level_ok(x) {
            assert(valid_levels(s) == vt.push(to_level(x)));
            assert(vt.push(to_level(x)).reverse() =~= seq![to_level(x)] + vt.reverse());
        } else {
            assert(valid_levels(s) == vt);
            assert(head_level(x) + vt.reverse() =~= vt.reverse());
        }
    }
}

/// `x` inserted into `t` (best first) after every level that it is not better than:
/// one step of a stable insertion sort.
pub open spec fn insert_stable(t: Seq<PriceLevel>, x: PriceLevel, bid: bool) -> Seq<PriceLevel>
    decreases t.len(),
{
    if t.len() == 0 {
        seq![x]
    } else if better(bid, x.price_bits, t.last().price_bits) {
        insert_stable(t.drop_last(), x, bid).push(t.last())
    } else {
        t.push(x)
    }
}

/// `s` sorted best first, levels of equal price keeping their order in `s`.
pub open spec fn stable_sorted(s: Seq<PriceLevel>, bid: bool) -> Seq<PriceLevel>
    decreases s.len(),
{
    if s.len() == 0 {
        s
    } else {
        insert_stable(stable_sorted(s.drop_last(), bid), s.last(), bid)
    }
}

/// Index of the first of the worst levels of `s`.
pub open spec fn worst_of(s: Seq<PriceLevel>, bid: bool) -> int
    decreases s.len(),
{
    if s.len() <= 1 {
        0
    } else {
        let w = worst_of(s.drop_last(), bid);
        if better(bid, s[w].price_bits, s.last().price_bits) {
            s.len() - 1
        } else {
            w
        }
    }
}

/// The levels kept when `s` streams past a buffer with room for `limit`: each level is
/// added while there is room; afterwards it takes the place of the first worst kept
/// level when it is strictly better, and is dropped otherwise.
pub open spec fn stream_keep(s: Seq<PriceLevel>, limit: nat, bid: bool) -> Seq<PriceLevel>
    decreases s.len(),
{
    if s.len() == 0 {
        s
    } else {
        let kept = stream_keep(s.drop_last(), limit, bid);
        let e = s.last();
        if kept.len() < limit {
            kept.push(e)
        } else if limit > 0 && better(bid, e.price_bits, kept[worst_of(kept, bid)].price_bits) {
            kept.update(worst_of(kept, bid), e)
        } else {
            kept
        }
    }
}

proof fn lemma_stable_sorted_single(s: Seq<PriceLevel>, bid: bool)
    requires
        s.len() == 1,
    ensures
        stable_sorted(s, bid) == s,
{
    assert(s.drop_last() =~= Seq::<PriceLevel>::empty());
    assert(stable_sorted(s.drop_last(), bid) == Seq::<PriceLevel>::empty());
    assert(insert_stable(Seq::<PriceLevel>::empty(), s.last(), bid) == seq![s.last()]);
    assert(seq![s.last()] =~= s);
}

/// Swaps two neighbouring levels.
fn swap_down(v: &mut Vec<PriceLevel>, j: usize)
    requires
        0 < j < old(v)@.len(),
    ensures
        final(v)@ == old(v)@.update(j as int - 1, old(v)@[j as int]).update(
            j as int,
            old(v)@[j as int - 1],
        ),
        final(v)@.to_multiset() == old(v)@.to_multiset(),
{
    let a = v[j - 1];
    let b = v[j];
    v[j - 1] = b;
    v[j] = a;
    proof {
        let s = old(v)@;
        let s1 = s.update(j as int - 1, b);
        assert(s1.to_multiset() == s.to_multiset().insert(b).remove(a));
        assert(s1[j as int] == b);
        assert(s1.update(j as int, a).to_multiset() == s1.to_multiset().insert(a).remove(b));
        assert(s.to_multiset().count(a) > 0);
        assert(s.to_multiset().insert(b).remove(a).insert(a).remove(b) =~= s.to_multiset());
        assert(final(v)@ =~= s1.update(j as int, a));
    }
}

/// Stable insertion sort, best level first.
fn sort_best_first(v: &mut Vec<PriceLevel>, bid: bool)
    ensures
        final(v)@.to_multiset() == old(v)@.to_multiset(),
        best_first(bid, final(v)@),
        best_first(bid, old(v)@) ==> final(v)@ == old(v)@,
        final(v)@ == stable_sorted(old(v)@, bid),
{
    let n = v.len();
    let ghost orig = v@;
    if n < 2 {
        proof {
            if n == 1 {
                lemma_stable_sorted_single(orig, bid);
            }
        }
        return;
    }
    proof {
        lemma_stable_sorted_single(orig.take(1), bid);
        assert(orig.take(1) =~= v@.take(1));
    }
    let mut i: usize = 1;
    while i < n
        invariant
            n == v@.len(),
            n == orig.len(),
            1 <= i <= n,
            v@.to_multiset() == orig.to_multiset(),
            best_first(bid, v@.take(i as int)),
            best_first(bid, orig) ==> v@ == orig,
            v@.take(i as int) == stable_sorted(orig.take(i as int), bid),
            forall|k: int| i <= k < n ==> #[trigger] v@[k] == orig[k],
        decreases n - i,
    {
        let mut j: usize = i;
        let ghost sorted = v@.take(i as int);
        let ghost x = orig[i as int];
        proof {
            assert(sorted.take(j as int) =~= sorted);
            assert(sorted.skip(j as int) =~= Seq::<PriceLevel>::empty());
            assert(v@[i as int] == x);
            assert(v@.take(i + 1) =~= sorted.take(j as int) + seq![x] + sorted.skip(j as int));
            assert(insert_stable(sorted, x, bid) + Seq::<PriceLevel>::empty() =~= insert_stable(
                sorted,
                x,
                bid,
            ));
        }
        proof {
            assert forall|a: int, b: int| 0 <= a < b <= i && a != j && b != j implies !better(
                bid,
                #[trigger] v@[b].price_bits,
                #[trigger] v@[a].price_bits,
            ) by {
                assert(v@.take(i as int)[b] == v@[b] && v@.take(i as int)[a] == v@[a]);
            }
        }
        while j > 0 && is_better(bid, v[j].price_bits, v[j - 1].price_bits)
            invariant
                n == v@.len(),
                n == orig.len(),
                1 <= i < n,
                j <= i,
                v@.to_multiset() == orig.to_multiset(),
                forall|a: int, b: int|
                    0 <= a < b <= i && a != j && b != j ==> !better(
                        bid,
                        #[trigger] v@[b].price_bits,
                        #[trigger] v@[a].price_bits,
                    ),
                forall|b: int| j < b <= i ==> better(bid, v@[j as int].price_bits, #[trigger] v@[b].price_bits),
                best_first(bid, orig) ==> v@ == orig && j == i,
                sorted.len() == i,
                v@.take(i + 1) == sorted.take(j as int) + seq![x] + sorted.skip(j as int),
                insert_stable(sorted, x, bid) == insert_stable(sorted.take(j as int), x, bid)
                    + sorted.skip(j as int),
                forall|k: int| i < k < n ==> #[trigger] v@[k] == orig[k],
            decreases j,
        {
            proof {
                assert(v@[j as int] == v@.take(i + 1)[j as int]);
                assert(v@.take(i + 1)[j as int] == x);
                assert(v@[j - 1] == v@.take(i + 1)[j - 1]);
                assert(v@.take(i + 1)[j - 1] == sorted[j - 1]);
                let tj = sorted.take(j as int);
                assert(tj.drop_last() =~= sorted.take(j - 1));
                assert(tj.last() == sorted[j - 1]);
                assert(insert_stable(tj, x, bid) == insert_stable(sorted.take(j - 1), x, bid).push(
                    sorted[j - 1],
                ));
                assert(insert_stable(sorted.take(j - 1), x, bid).push(sorted[j - 1]) + sorted.skip(
                    j as int,
                ) =~= insert_stable(sorted.take(j - 1), x, bid) + sorted.skip(j - 1));
            }
            let ghost before_swap = v@;
            let ghost jj = j as int;
            proof {
                if best_first(bid, orig) {
                    assert(!better(bid, orig[j as int].price_bits, orig[j - 1].price_bits));
                }
            }
            swap_down(v, j);
            j = j - 1;
            proof {
                let lhs = sorted.take(jj) + seq![x] + sorted.skip(jj);
                let rhs = sorted.take(jj - 1) + seq![x] + sorted.skip(jj - 1);
                assert forall|k: int| 0 <= k < i + 1 implies #[trigger] v@.take(i + 1)[k] == rhs[k] by {
                    assert(before_swap.take(i + 1)[k] == lhs[k]);
                    if k < jj - 1 {
                        assert(v@[k] == before_swap[k]);
                    } else if k == jj - 1 {
                        assert(v@[k] == before_swap[jj]);
                        assert(lhs[jj] == x);
                    } else if k == jj {
                        assert(v@[k] == before_swap[jj - 1]);
                        assert(lhs[jj - 1] == sorted[jj - 1]);
                    } else {
                        assert(v@[k] == before_swap[k]);
                    }
                }
                assert(v@.take(i + 1) =~= rhs);
                assert forall|k: int| i < k < n implies #[trigger] v@[k] == orig[k] by {
                    assert(v@[k] == before_swap[k]);
                }
            }
        }
        proof {
            let tj = sorted.take(j as int);
            if j == 0 {
                assert(tj =~= Seq::<PriceLevel>::empty());
                assert(insert_stable(tj, x, bid) == seq![x]);
            } else {
                assert(v@[j as int] == v@.take(i + 1)[j as int]);
                assert(v@[j - 1] == v@.take(i + 1)[j - 1]);
                assert(v@.take(i + 1)[j - 1] == sorted[j - 1]);
                assert(tj.last() == sorted[j - 1]);
                assert(insert_stable(tj, x, bid) == tj.push(x));
            }
            assert(sorted.take(j as int) + seq![x] + sorted.skip(j as int) =~= insert_stable(
                tj,
                x,
                bid,
            ) + sorted.skip(j as int));
            assert(orig.take(i + 1).drop_last() =~= orig.take(i as int));
            assert(orig.take(i + 1).last() == x);
            assert(v@.take(i + 1) == stable_sorted(orig.take(i + 1), bid));
            assert forall|a: int, b: int| 0 <= a < b < i + 1 implies !better(
                bid,
                #[trigger] v@.take(i + 1)[b].price_bits,
                #[trigger] v@.take(i + 1)[a].price_bits,
            ) by {
                if b == j && a < j {
                    assert(!better(bid, v@[j as int].price_bits, v@[j - 1].price_bits));
                    if a < j - 1 {
                        assert(!better(bid, v@[j - 1].price_bits, v@[a].price_bits));
                    }
                } else if a == j && b > j {
                    assert(better(bid, v@[j as int].price_bits, v@[b].price_bits));
                }
            }
        }
        i = i + 1;
    }
    assert(orig.take(n as int) =~= orig);
    assert(v@.take(n as int) =~= v@);
}


/// The first `limit` levels that count, in listing order.
fn take_in_listing_order(levels: &Vec<RawLevel>, limit: usize, bid: bool) -> (res: Vec<PriceLevel>)
    requires
        listed_best_first(bid, price_order(levels@)),
    ensures
        res@ == valid_levels(levels@).take(min_nat(limit as int, valid_levels(levels@).len() as int)),
        best_first(bid, res@),
{
    let ghost s = levels@;
    let n = levels.len();
    let mut buf: Vec<PriceLevel> = Vec::new();
    let ghost mut last: int = -1;
    let mut i: usize = 0;
    while i < n
        invariant
            s == levels@,
            n == s.len(),
            i <= n,
            listed_best_first(bid, price_order(s)),
            buf.len() == min_nat(limit as int, valid_levels(s.take(i as int)).len() as int),
            buf@ == valid_levels(s.take(i as int)).take(buf.len() as int),
            best_first(bid, buf@),
            buf.len() > 0 ==> 0 <= last < i && level_ok(s[last]) && buf@.last() == to_level(s[last]),
        decreases n - i,
    {
        let ghost prev_valid = valid_levels(s.take(i as int));
        assert(s.take(i + 1).drop_last() =~= s.take(i as int));
        assert(s.take(i + 1).last() == s[i as int]);
        if let Some(level) = level_of(&levels[i]) {
            if buf.len() < limit {
                proof {
                    if buf.len() > 0 {
                        let l = buf.len() - 1;
                        assert(price_ok(s[last]) && price_ok(s[i as int]));
                        assert(!better(bid, level.price_bits, buf@[l as int].price_bits));
                        assert forall|a: int| 0 <= a < buf.len() implies !better(
                            bid,
                            level.price_bits,
                            #[trigger] buf@[a].price_bits,
                        ) by {
                            if a < l {
                                assert(!better(bid, buf@[l as int].price_bits, buf@[a].price_bits));
                            }
                        }
                    }
                    assert(buf@ =~= prev_valid);
                }
                buf.push(level);
                proof {
                    last = i as int;
                    assert(buf@ =~= valid_levels(s.take(i + 1)).take(buf.len() as int));
                }
            } else {
                assert(valid_levels(s.take(i + 1)).take(buf.len() as int) =~= prev_valid.take(
                    buf.len() as int,
                ));
            }
        }
        i = i + 1;
    }
    assert(s.take(n as int) =~= s);
    buf
}

/// The last `limit` levels that count, taken from the end of the listing.
fn take_from_listing_end(levels: &Vec<RawLevel>, limit: usize, bid: bool) -> (res: Vec<PriceLevel>)
    requires
        listed_best_last(bid, price_order(levels@)),
    ensures
        res@ == valid_levels(levels@.reverse()).take(
            min_nat(limit as int, valid_levels(levels@.reverse()).len() as int),
        ),
        best_first(bid, res@),
{
    let ghost s = levels@;
    let ghost r = levels@.reverse();
    let n = levels.len();
    let mut buf: Vec<PriceLevel> = Vec::new();
    let ghost mut last: int = -1;
    let mut t: usize = 0;
    while t < n
        invariant
            s == levels@,
            r == s.reverse(),
            n == s.len(),
            t <= n,
            listed_best_last(bid, price_order(s)),
            buf.len() == min_nat(limit as int, valid_levels(r.take(t as int)).len() as int),
            buf@ == valid_levels(r.take(t as int)).take(buf.len() as int),
            best_first(bid, buf@),
            buf.len() > 0 ==> n - t <= last < n && level_ok(s[last]) && buf@.last() == to_level(
                s[last],
            ),
        decreases n - t,
    {
        let idx = n - 1 - t;
        let ghost prev_valid = valid_levels(r.take(t as int));
        assert(r.take(t + 1).drop_last() =~= r.take(t as int));
        assert(r.take(t + 1).last() == s[idx as int]);
        if let Some(level) = level_of(&levels[idx]) {
            if buf.len() < limit {
                proof {
                    if buf.len() > 0 {
                        let l = buf.len() - 1;
                        assert(price_ok(s[last]) && price_ok(s[idx as int]));
                        assert(!better(bid, level.price_bits, buf@[l as int].price_bits));
                        assert forall|a: int| 0 <= a < buf.len() implies !better(
                            bid,
                            level.price_bits,
                            #[trigger] buf@[a].price_bits,
                        ) by {
                            if a < l {
                                assert(!better(bid, buf@[l as int].price_bits, buf@[a].price_bits));
                            }
                        }
                    }
                    assert(buf@ =~= prev_valid);
                }
                buf.push(level);
                proof {
                    last = idx as int;
                    assert(buf@ =~= valid_levels(r.take(t + 1)).take(buf.len() as int));
                }
            } else {
                assert(valid_levels(r.take(t + 1)).take(buf.len() as int) =~= prev_valid.take(
                    buf.len() as int,
                ));
            }
        }
        t = t + 1;
    }
    assert(r.take(n as int) =~= r);
    buf
}

/// Index of the first level that no other level is worse than.
fn worst_index(buf: &Vec<PriceLevel>, bid: bool) -> (w: usize)
    requires
        buf.len() > 0,
    ensures
        w < buf.len(),
        w == worst_of(buf@, bid),
        forall|k: int| 0 <= k < buf.len() ==> !better(bid, buf@[w as int].price_bits, #[trigger] buf@[k].price_bits),
{
    let mut w: usize = 0;
    let mut i: usize = 1;
    while i < buf.len()
        invariant
            1 <= i <= buf.len(),
            w < i,
            w == worst_of(buf@.take(i as int), bid),
            forall|k: int| 0 <= k < i ==> !better(bid, buf@[w as int].price_bits, #[trigger] buf@[k].price_bits),
        decreases buf.len() - i,
    {
        proof {
            let t = buf@.take(i + 1);
            assert(t.drop_last() =~= buf@.take(i as int));
            assert(t[w as int] == buf@[w as int]);
            assert(t.last() == buf@[i as int]);
        }
        if is_better(bid, buf[w].price_bits, buf[i].price_bits) {
            w = i;
        }
        i = i + 1;
    }
    assert(buf@.take(buf.len() as int) =~= buf@);
    w
}

/// Streams through all levels keeping the `limit` best: while there is room a level
/// is added, afterwards it replaces the first worst kept level when it is better.
fn keep_best_levels(levels: &Vec<RawLevel>, limit: usize, bid: bool) -> (res: Vec<PriceLevel>)
    ensures
        res.len() == min_nat(limit as int, valid_levels(levels@).len() as int),
        all_positive(res@),
        keeps_best(bid, valid_levels(levels@), res@),
        res@ == stream_keep(valid_levels(levels@), limit as nat, bid),
{
    let ghost s = levels@;
    let n = levels.len();
    let mut buf: Vec<PriceLevel> = Vec::new();
    let ghost mut dropped: Seq<PriceLevel> = Seq::empty();
    let mut i: usize = 0;
    while i < n
        invariant
            s == levels@,
            n == s.len(),
            i <= n,
            buf.len() == min_nat(limit as int, valid_levels(s.take(i as int)).len() as int),
            buf.len() < limit ==> dropped.len() == 0,
            buf@.to_multiset().add(dropped.to_multiset()) == valid_levels(s.take(i as int)).to_multiset(),
            forall|a: int, b: int|
                0 <= a < dropped.len() && 0 <= b < buf.len() ==> !better(
                    bid,
                    #[trigger] dropped[a].price_bits,
                    #[trigger] buf@[b].price_bits,
                ),
            all_positive(buf@),
            buf@ == stream_keep(valid_levels(s.take(i as int)), limit as nat, bid),
        decreases n - i,
    {
        let ghost prev_valid = valid_levels(s.take(i as int));
        assert(s.take(i + 1).drop_last() =~= s.take(i as int));
        assert(s.take(i + 1).last() == s[i as int]);
        if let Some(level) = level_of(&levels[i]) {
            assert(valid_levels(s.take(i + 1)) == prev_valid.push(level));
            assert(prev_valid.push(level).drop_last() =~= prev_valid);
            assert(prev_valid.push(level).last() == level);
            if buf.len() < limit {
                buf.push(level);
                proof {
                    assert(dropped.to_multiset() =~= vstd::multiset::Multiset::empty());
                    assert(buf@.to_multiset().add(dropped.to_multiset()) =~= prev_valid.push(
                        level,
                    ).to_multiset());
                }
            } else if limit > 0 {
                let w = worst_index(&buf, bid);
                let worst = buf[w];
                if is_better(bid, level.price_bits, worst.price_bits) {
                    let ghost old_buf = buf@;
                    buf[w] = level;
                    proof {
                        assert(buf@ == old_buf.update(w as int, level));
                        let old_dropped = dropped;
                        dropped = dropped.push(worst);
                        assert(buf@.to_multiset() == old_buf.to_multiset().insert(level).remove(
                            worst,
                        ));
                        assert(old_buf.to_multiset().count(worst) > 0);
                        assert(buf@.to_multiset().add(dropped.to_multiset()) =~= old_buf.to_multiset().add(
                            old_dropped.to_multiset(),
                        ).insert(level));
                        assert forall|a: int, b: int|
                            0 <= a < dropped.len() && 0 <= b < buf.len() implies !better(
                                bid,
                                #[trigger] dropped[a].price_bits,
                                #[trigger] buf@[b].price_bits,
                            ) by {
                            if a == old_dropped.len() {
                                if b != w {
                                    assert(!better(bid, worst.price_bits, old_buf[b].price_bits));
                                }
                            } else {
                                assert(dropped[a] == old_dropped[a]);
                                assert(!better(bid, old_dropped[a].price_bits, old_buf[w as int].price_bits));
                                if b != w {
                                    assert(!better(bid, old_dropped[a].price_bits, old_buf[b].price_bits));
                                }
                            }
                        }
                    }
                } else {
                    proof {
                        let old_dropped = dropped;
                        dropped = dropped.push(level);
                        assert(buf@.to_multiset().add(dropped.to_multiset()) =~= buf@.to_multiset().add(
                            old_dropped.to_multiset(),
                        ).insert(level));
                        assert forall|a: int, b: int|
                            0 <= a < dropped.len() && 0 <= b < buf.len() implies !better(
                                bid,
                                #[trigger] dropped[a].price_bits,
                                #[trigger] buf@[b].price_bits,
                            ) by {
                            if a == old_dropped.len() {
                                assert(!better(bid, worst.price_bits, buf@[b].price_bits));
                            } else {
                                assert(dropped[a] == old_dropped[a]);
                            }
                        }
                    }
                }
            } else {
                proof {
                    let old_dropped = dropped;
                    dropped = dropped.push(level);
                    assert(buf@.to_multiset().add(dropped.to_multiset()) =~= buf@.to_multiset().add(
                        old_dropped.to_multiset(),
                    ).insert(level));
                }
            }
        } else {
            assert(valid_levels(s.take(i + 1)) == prev_valid);
        }
        i = i + 1;
    }
    assert(s.take(n as int) =~= s);
    proof {
        let valid = valid_levels(s);
        assert(buf@.to_multiset().subset_of(valid.to_multiset()));
        assert forall|x: PriceLevel, y: PriceLevel|
            #[trigger] valid.to_multiset().count(x) > buf@.to_multiset().count(x) && #[trigger] buf@.contains(
                y,
            ) implies !better(bid, x.price_bits, y.price_bits) by {
            assert(dropped.to_multiset().count(x) > 0);
            assert(dropped.contains(x));
            let a = choose|a: int| 0 <= a < dropped.len() && dropped[a] == x;
            let b = choose|b: int| 0 <= b < buf.len() && buf@[b] == y;
            assert(!better(bid, dropped[a].price_bits, buf@[b].price_bits));
        }
    }
    buf
}

proof fn lemma_positive_at(a: Seq<PriceLevel>, b: Seq<PriceLevel>, i: int)
    requires
        all_positive(a),
        a.to_multiset() == b.to_multiset(),
        0 <= i < b.len(),
    ensures
        level_positive(b[i]),
{
    assert(b.contains(b[i]));
    assert(a.to_multiset().count(b[i]) > 0);
    assert(a.contains(b[i]));
    let j = choose|j: int| 0 <= j < a.len() && a[j] == b[i];
    assert(level_positive(a[j]));
}

proof fn lemma_all_positive_take(a: Seq<PriceLevel>, k: int)
    requires
        all_positive(a),
        0 <= k <= a.len(),
    ensures
        all_positive(a.take(k)),
{
    assert forall|i: int| 0 <= i < a.take(k).len() implies #[trigger] level_positive(a.take(k)[i]) by {
        assert(a.take(k)[i] == a[i]);
        assert(level_positive(a[i]));
    }
}

#[verifier::spinoff_prover]
proof fn lemma_same_multiset_positive(a: Seq<PriceLevel>, b: Seq<PriceLevel>)
    requires
        all_positive(a),
        a.to_multiset() == b.to_multiset(),
    ensures
        all_positive(b),
{
    assert forall|i: int| 0 <= i < b.len() implies #[trigger] level_positive(b[i]) by {
        lemma_positive_at(a, b, i);
    }
}

proof fn lemma_same_multiset_keeps_best(
    bid: bool,
    from: Seq<PriceLevel>,
    a: Seq<PriceLevel>,
    b: Seq<PriceLevel>,
)
    requires
        keeps_best(bid, from, a),
        a.to_multiset() == b.to_multiset(),
    ensures
        keeps_best(bid, from, b),
{
    assert forall|x: PriceLevel, y: PriceLevel|
        #[trigger] from.to_multiset().count(x) > b.to_multiset().count(x) && #[trigger] b.contains(
            y,
        ) implies !better(bid, x.price_bits, y.price_bits) by {
        assert(b.to_multiset().count(y) > 0);
        assert(a.contains(y));
    }
}

/// Sets one side of the book from raw levels: see `selected` for what is kept.
pub fn select_levels(levels: &Vec<RawLevel>, max_levels: usize, bid: bool) -> (res: Vec<
    PriceLevel,
>)
    ensures
        selected(levels@, max_levels, bid, res@),
{
    let order = detect_price_order(levels);
    let limit: usize = if max_levels < crate::types::MAX_LEVELS {
        max_levels
    } else {
        crate::types::MAX_LEVELS
    };
    proof {
        lemma_valid_levels_positive(levels@);
        lemma_valid_levels_positive(levels@.reverse());
    }
    let ghost valid = valid_levels(levels@);
    if (bid && order == PriceOrder::Descending) || (!bid && order == PriceOrder::Ascending) {
        let mut buf = take_in_listing_order(levels, limit, bid);
        sort_best_first(&mut buf, bid);
        proof {
            lemma_all_positive_take(valid, min_nat(limit as int, valid.len() as int));
        }
        buf
    } else if (bid && order == PriceOrder::Ascending) || (!bid && order == PriceOrder::Descending) {
        let mut buf = take_from_listing_end(levels, limit, bid);
        sort_best_first(&mut buf, bid);
        proof {
            let rv = valid_levels(levels@.reverse());
            lemma_all_positive_take(rv, min_nat(limit as int, rv.len() as int));
            lemma_valid_levels_reverse(levels@);
        }
        buf
    } else {
        let mut buf = keep_best_levels(levels, limit, bid);
        let ghost before = buf@;
        sort_best_first(&mut buf, bid);
        proof {
            lemma_same_multiset_positive(before, buf@);
            lemma_same_multiset_keeps_best(bid, valid, before, buf@);
            assert(buf@.len() == before.len()) by {
                assert(buf@.to_multiset().len() == before.to_multiset().len());
            }
        }
        buf
    }
}

} // verus!
