use vstd::prelude::*;

use crate::book::{sorted, sweep};
use crate::order::{crosses, fill_pair, precedes, traded, Fill, LimitOrder};
use crate::side::OrderSide;

verus! {

broadcast use vstd::seq_lib::group_to_multiset_ensures;

/// The quantity traded by the parties on `side` in `fills`.
pub open spec fn volume(fills: Seq<Fill>, side: OrderSide) -> int
    decreases fills.len(),
{
    if fills.len() == 0 {
        0
    } else {
        (if fills[0].side == side {
            fills[0].amount as int
        } else {
            0
        }) + volume(fills.drop_first(), side)
    }
}

/// The quantity open in `book`.
pub open spec fn depth(book: Seq<LimitOrder>) -> int
    decreases book.len(),
{
    if book.len() == 0 {
        0
    } else {
        book[0].amount + depth(book.drop_first())
    }
}

proof fn lemma_volume_prepend_pair(a: Fill, b: Fill, rest: Seq<Fill>, side: OrderSide)
    ensures
        volume(seq![a, b] + rest, side) == (if a.side == side {
            a.amount as int
        } else {
            0
        }) + (if b.side == side {
            b.amount as int
        } else {
            0
        }) + volume(rest, side),
{
    let s = seq![a, b] + rest;
    assert(s.drop_first() =~= seq![b] + rest);
    assert((seq![b] + rest).drop_first() =~= rest);
    assert(volume(seq![b] + rest, side) == (if b.side == side {
        b.amount as int
    } else {
        0
    }) + volume(rest, side));
}

/// Matching conserves quantity: the buyers and the sellers in the fills trade
/// the same amount; what the incoming order traded plus what is left of it is
/// what it came with; and what the resting orders traded is what left the book.
pub proof fn lemma_quantity_conservation(side: OrderSide, book: Seq<LimitOrder>, incoming: LimitOrder)
    ensures
        ({
            let r = sweep(side, book, incoming);
            &&& volume(r.0, OrderSide::Buy) == volume(r.0, OrderSide::Sell)
            &&& volume(r.0, side.flip()) + r.2.amount == incoming.amount
            &&& depth(r.1) + volume(r.0, side) == depth(book)
        }),
    decreases book.len(),
{
    let r = sweep(side, book, incoming);
    if incoming.amount == 0 || book.len() == 0 || !crosses(side, book[0], incoming) {
    } else {
        let resting = book[0];
        let amount = traded(resting, incoming);
        let resting_after = resting.with_amount((resting.amount - amount) as u32);
        let incoming_after = incoming.with_amount((incoming.amount - amount) as u32);
        let legs = fill_pair(side, resting, incoming);
        if resting_after.amount > 0 {
            lemma_volume_prepend_pair(legs.0, legs.1, Seq::empty(), OrderSide::Buy);
            lemma_volume_prepend_pair(legs.0, legs.1, Seq::empty(), OrderSide::Sell);
            assert(seq![legs.0, legs.1] + Seq::<Fill>::empty() =~= seq![legs.0, legs.1]);
            assert(book.update(0, resting_after).drop_first() =~= book.drop_first());
        } else {
            let rest = sweep(side, book.drop_first(), incoming_after);
            lemma_quantity_conservation(side, book.drop_first(), incoming_after);
            lemma_volume_prepend_pair(legs.0, legs.1, rest.0, OrderSide::Buy);
            lemma_volume_prepend_pair(legs.0, legs.1, rest.0, OrderSide::Sell);
        }
    }
}

/// The `k`-th pair of `fills` is a match of `resting`, on `side`, with
/// `incoming`, at `resting`'s price, which crosses `incoming`'s.
pub open spec fn pair_matches(
    fills: Seq<Fill>,
    k: int,
    side: OrderSide,
    resting: LimitOrder,
    incoming: LimitOrder,
) -> bool {
    &&& crosses(side, resting, incoming)
    &&& fills[2 * k].side == side
    &&& fills[2 * k].price == resting.price
    &&& fills[2 * k].trader == resting.trader_id
    &&& fills[2 * k].counter_party == incoming.trader_id
    &&& fills[2 * k + 1].side == side.flip()
    &&& fills[2 * k + 1].price == resting.price
    &&& fills[2 * k + 1].trader == incoming.trader_id
    &&& fills[2 * k + 1].counter_party == resting.trader_id
    &&& fills[2 * k].amount == fills[2 * k + 1].amount
}

/// The `i`-th pair of `fills`, a match of `a`, came before the `j`-th, a
/// match of `b`, as priority on `side` demands: `a` precedes `b`, so its price
/// is at least as good, and at an equal price `a` is the older order.
pub open spec fn in_priority(fills: Seq<Fill>, i: int, j: int, side: OrderSide, a: LimitOrder, b: LimitOrder) -> bool {
    &&& precedes(side, a, b)
    &&& side == OrderSide::Buy ==> fills[2 * i].price >= fills[2 * j].price
    &&& side == OrderSide::Sell ==> fills[2 * i].price <= fills[2 * j].price
    &&& fills[2 * i].price == fills[2 * j].price ==> a.nonce < b.nonce
}

proof fn lemma_pairs_follow_book(side: OrderSide, book: Seq<LimitOrder>, incoming: LimitOrder)
    ensures
        ({
            let f = sweep(side, book, incoming).0;
            &&& f.len() % 2 == 0
            &&& f.len() / 2 <= book.len()
            &&& forall|k: int| 0 <= k < f.len() / 2 ==> pair_matches(f, k, side, #[trigger] book[k], incoming)
        }),
    decreases book.len(),
{
    let f = sweep(side, book, incoming).0;
    if incoming.amount == 0 || book.len() == 0 || !crosses(side, book[0], incoming) {
    } else {
        let resting = book[0];
        let amount = traded(resting, incoming);
        let resting_after = resting.with_amount((resting.amount - amount) as u32);
        let incoming_after = incoming.with_amount((incoming.amount - amount) as u32);
        if resting_after.amount > 0 {
            assert(pair_matches(f, 0, side, book[0], incoming));
        } else {
            let tail = book.drop_first();
            lemma_pairs_follow_book(side, tail, incoming_after);
            let rest = sweep(side, tail, incoming_after).0;
            assert forall|k: int| 0 <= k < f.len() / 2 implies pair_matches(f, k, side, #[trigger] book[k], incoming) by {
                if k > 0 {
                    assert(pair_matches(rest, k - 1, side, tail[k - 1], incoming_after));
                    assert(f[2 * k] == rest[2 * (k - 1)]);
                    assert(f[2 * k + 1] == rest[2 * (k - 1) + 1]);
                }
            }
        }
    }
}

/// Matching follows price-time priority: the fills come in pairs, the
/// resting order of the k-th pair is the k-th order of the book, and each
/// pair is at that order's price, which crosses the incoming order's. So on
/// a book in priority order the better price trades first, and at one price
/// the older order does.
pub proof fn lemma_price_time_priority(side: OrderSide, book: Seq<LimitOrder>, incoming: LimitOrder)
    requires
        sorted(side, book),
    ensures
        ({
            let f = sweep(side, book, incoming).0;
            &&& f.len() % 2 == 0
            &&& f.len() / 2 <= book.len()
            &&& forall|k: int| 0 <= k < f.len() / 2 ==> pair_matches(f, k, side, #[trigger] book[k], incoming)
            &&& forall|i: int, j: int|
                0 <= i < j < f.len() / 2 ==> in_priority(f, i, j, side, #[trigger] book[i], #[trigger] book[j])
        }),
{
    let f = sweep(side, book, incoming).0;
    lemma_pairs_follow_book(side, book, incoming);
    assert forall|i: int, j: int| 0 <= i < j < f.len() / 2 implies in_priority(
        f,
        i,
        j,
        side,
        #[trigger] book[i],
        #[trigger] book[j],
    ) by {
        assert(pair_matches(f, i, side, book[i], incoming));
        assert(pair_matches(f, j, side, book[j], incoming));
    }
}

/// The orders in a book decide its sequence: two books of one side, each in
/// priority order, that hold the same orders are equal. So the book does not
/// depend on the order in which its orders were inserted.
pub proof fn lemma_book_order_independent(side: OrderSide, a: Seq<LimitOrder>, b: Seq<LimitOrder>)
    requires
        sorted(side, a),
        sorted(side, b),
        a.to_multiset() == b.to_multiset(),
    ensures
        a == b,
    decreases a.len(),
{
    if a.len() == 0 {
        b.to_multiset_ensures();
        assert(b.len() == 0);
        assert(a =~= b);
    } else {
        a.to_multiset_ensures();
        b.to_multiset_ensures();
        assert(b.len() == a.len());
        assert(a.contains(a[0]));
        assert(b.to_multiset().count(a[0]) > 0);
        let j = choose|j: int| 0 <= j < b.len() && b[j] == a[0];
        assert(b.contains(b[0]));
        assert(a.to_multiset().count(b[0]) > 0);
        let i = choose|i: int| 0 <= i < a.len() && a[i] == b[0];
        if i > 0 && j > 0 {
            assert(precedes(side, a[0], a[i]));
            assert(precedes(side, b[0], b[j]));
        }
        assert(a[0] == b[0]);
        assert(a.remove(0) =~= a.drop_first());
        assert(b.remove(0) =~= b.drop_first());
        let ta = a.drop_first();
        let tb = b.drop_first();
        assert(sorted(side, ta)) by {
            assert forall|x: int, y: int| 0 <= x < y < ta.len() implies precedes(side, #[trigger] ta[x], #[trigger] ta[y]) by {
                assert(precedes(side, a[x + 1], a[y + 1]));
            }
        }
        assert(sorted(side, tb)) by {
            assert forall|x: int, y: int| 0 <= x < y < tb.len() implies precedes(side, #[trigger] tb[x], #[trigger] tb[y]) by {
                assert(precedes(side, b[x + 1], b[y + 1]));
            }
        }
        lemma_book_order_independent(side, ta, tb);
        assert(a =~= b) by {
            assert forall|x: int| 0 <= x < a.len() implies a[x] == b[x] by {
                if x > 0 {
                    assert(a[x] == ta[x - 1]);
                    assert(b[x] == tb[x - 1]);
                }
            }
        }
    }
}

} // verus!
