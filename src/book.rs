use std::collections::VecDeque;

use vstd::prelude::*;

use crate::order::{
    crosses, fill_pair, order_precedes, precedes, traded, BuyLimitOrder, Fill, LimitOrder,
    SellLimitOrder, TryFill,
};
use crate::side::OrderSide;

verus! {

/// `s` is strictly ordered by the priority order of `side`.
pub open spec fn sorted(side: OrderSide, s: Seq<LimitOrder>) -> bool {
    forall|i: int, j: int| 0 <= i < j < s.len() ==> precedes(side, #[trigger] s[i], #[trigger] s[j])
}

/// No order in `s` is used up.
pub open spec fn all_open(s: Seq<LimitOrder>) -> bool {
    forall|i: int| 0 <= i < s.len() ==> #[trigger] s[i].amount > 0
}

/// `a` and `b` have the same place in every book: equal price and sequence number.
pub open spec fn same_key(a: LimitOrder, b: LimitOrder) -> bool {
    a.price == b.price && a.nonce == b.nonce
}

/// What matching `incoming` against a book on `side` that holds `book` gives:
/// the fills in the order they happen, the book afterwards, and `incoming`
/// with what is left of it.
///
/// The front order trades with `incoming` while both have something open and
/// the two cross. A resting order that is used up leaves the book; one that is
/// not stays at its place with the smaller amount, and matching stops there.
pub open spec fn sweep(side: OrderSide, book: Seq<LimitOrder>, incoming: LimitOrder) -> (
    Seq<Fill>,
    Seq<LimitOrder>,
    LimitOrder,
)
    decreases book.len(),
{
    if incoming.amount == 0 || book.len() == 0 || !crosses(side, book[0], incoming) {
        (Seq::empty(), book, incoming)
    } else {
        let resting = book[0];
        let amount = traded(resting, incoming);
        let legs = fill_pair(side, resting, incoming);
        let resting_after = resting.with_amount((resting.amount - amount) as u32);
        let incoming_after = incoming.with_amount((incoming.amount - amount) as u32);
        if resting_after.amount > 0 {
            (seq![legs.0, legs.1], book.update(0, resting_after), incoming_after)
        } else {
            let rest = sweep(side, book.drop_first(), incoming_after);
            (seq![legs.0, legs.1] + rest.0, rest.1, rest.2)
        }
    }
}

/// What the book keeps after a sweep is what was behind the orders used up,
/// place for place with the same prices and sequence numbers; the incoming
/// order keeps all but its amount; and if anything of it is left open,
/// matching stopped because the book ran out or its front no longer crosses.
pub proof fn lemma_sweep_shape(side: OrderSide, book: Seq<LimitOrder>, incoming: LimitOrder)
    ensures
        ({
            let r = sweep(side, book, incoming);
            let d = book.len() - r.1.len();
            &&& 0 <= d <= book.len()
            &&& forall|i: int| 0 <= i < r.1.len() ==> same_key(#[trigger] r.1[i], book[i + d])
            &&& r.2 == incoming.with_amount(r.2.amount)
            &&& r.2.amount <= incoming.amount
            &&& r.2.amount > 0 ==> r.1.len() == 0 || !crosses(side, r.1[0], r.2)
        }),
    decreases book.len(),
{
    if incoming.amount == 0 || book.len() == 0 || !crosses(side, book[0], incoming) {
    } else {
        let resting = book[0];
        let amount = traded(resting, incoming);
        let incoming_after = incoming.with_amount((incoming.amount - amount) as u32);
        if resting.amount - amount > 0 {
        } else {
            lemma_sweep_shape(side, book.drop_first(), incoming_after);
            let r = sweep(side, book, incoming);
            let d = book.len() - r.1.len();
            assert forall|i: int| 0 <= i < r.1.len() implies same_key(#[trigger] r.1[i], book[i + d]) by {
                assert(book.drop_first()[i + d - 1] == book[i + d]);
            }
        }
    }
}

/// The resting orders of one side, best first.
pub struct OrderBook {
    side: OrderSide,
    orders: VecDeque<LimitOrder>,
}

impl View for OrderBook {
    type V = Seq<LimitOrder>;

    closed spec fn view(&self) -> Seq<LimitOrder> {
        self.orders@
    }
}

impl OrderBook {
    /// The side whose orders rest in this book.
    pub closed spec fn side(&self) -> OrderSide {
        self.side
    }

    /// The book is in priority order and holds no used-up order.
    pub open spec fn wf(&self) -> bool {
        sorted(self.side(), self@) && all_open(self@)
    }

    /// An empty book for orders of `side`.
    pub fn new(side: OrderSide) -> (r: OrderBook)
        ensures
            r.side() == side,
            r@ == Seq::<LimitOrder>::empty(),
            r.wf(),
    {
        OrderBook { side, orders: VecDeque::new() }
    }

    /// The side whose orders rest in this book.
    pub fn book_side(&self) -> (r: OrderSide)
        ensures
            r == self.side(),
    {
        self.side
    }

    /// The order that would be matched first, if any.
    pub fn front(&self) -> (r: Option<LimitOrder>)
        ensures
            r == (if self@.len() == 0 {
                None
            } else {
                Some(self@[0])
            }),
    {
        if self.orders.len() == 0 {
            None
        } else {
            Some(self.orders[0])
        }
    }

    /// Matches `resting`, an order of this book's side, against `incoming`,
    /// through the side-typed orders, so that a buy only ever meets a sell.
    fn match_pair(&self, resting: &mut LimitOrder, incoming: &mut LimitOrder) -> (r: Option<(Fill, Fill)>)
        ensures
            crosses(self.side(), *old(resting), *old(incoming)) ==> {
                &&& r == Some(fill_pair(self.side(), *old(resting), *old(incoming)))
                &&& *final(resting) == old(resting).with_amount(
                    (old(resting).amount - traded(*old(resting), *old(incoming))) as u32,
                )
                &&& *final(incoming) == old(incoming).with_amount(
                    (old(incoming).amount - traded(*old(resting), *old(incoming))) as u32,
                )
            },
            !crosses(self.side(), *old(resting), *old(incoming)) ==> {
                &&& r is None
                &&& *final(resting) == *old(resting)
                &&& *final(incoming) == *old(incoming)
            },
    {
        match self.side {
            OrderSide::Buy => {
                let mut bid = BuyLimitOrder(*resting);
                let mut ask = SellLimitOrder(*incoming);
                let r = bid.try_fill(&mut ask);
                *resting = bid.0;
                *incoming = ask.0;
                r
            },
            OrderSide::Sell => {
                let mut ask = SellLimitOrder(*resting);
                let mut bid = BuyLimitOrder(*incoming);
                let r = ask.try_fill(&mut bid);
                *resting = ask.0;
                *incoming = bid.0;
                r
            },
        }
    }

    /// Matches an incoming order of the other side against this book, best
    /// resting order first, as [`sweep`] describes. Returns the fills and, if
    /// something of `order` is left open, what is left; `order` is left
    /// holding the remaining amount.
    pub fn submit_order(&mut self, order: &mut LimitOrder) -> (r: (Vec<Fill>, Option<LimitOrder>))
        requires
            old(self).wf(),
        ensures
            final(self).wf(),
            final(self).side() == old(self).side(),
            r.0@ == sweep(old(self).side(), old(self)@, *old(order)).0,
            final(self)@ == sweep(old(self).side(), old(self)@, *old(order)).1,
            *final(order) == sweep(old(self).side(), old(self)@, *old(order)).2,
            r.1 == (if final(order).amount == 0 {
                None
            } else {
                Some(*final(order))
            }),
    {
        let ghost side = self.side();
        let ghost book0 = self@;
        let ghost order0 = *order;
        let mut fills: Vec<Fill> = Vec::new();
        loop
            invariant
                self.wf(),
                self.side() == side,
                fills@ + sweep(side, self@, *order).0 == sweep(side, book0, order0).0,
                sweep(side, self@, *order).1 == sweep(side, book0, order0).1,
                sweep(side, self@, *order).2 == sweep(side, book0, order0).2,
            ensures
                self.wf(),
                self.side() == side,
                fills@ == sweep(side, book0, order0).0,
                self@ == sweep(side, book0, order0).1,
                *order == sweep(side, book0, order0).2,
            decreases self@.len(),
        {
            if order.amount == 0 || self.orders.len() == 0 {
                assert(fills@ + Seq::<Fill>::empty() =~= fills@);
                break;
            }
            let ghost before = self@;
            let ghost incoming = *order;
            let mut resting = match self.orders.pop_front() {
                Some(o) => o,
                None => {
                    break;
                },
            };
            assert(self@ =~= before.drop_first());
            match self.match_pair(&mut resting, order) {
                None => {
                    self.orders.push_front(resting);
                    assert(self@ =~= before);
                    assert(fills@ + Seq::<Fill>::empty() =~= fills@);
                    break;
                },
                Some(legs) => {
                    let ghost fills_before = fills@;
                    fills.push(legs.0);
                    fills.push(legs.1);
                    assert(fills@ =~= fills_before + seq![legs.0, legs.1]);
                    if resting.amount > 0 {
                        self.orders.push_front(resting);
                        assert(self@ =~= before.update(0, resting));
                        assert(sweep(side, self@, *order).0 =~= Seq::<Fill>::empty());
                        assert(fills@ + Seq::<Fill>::empty() =~= fills@);
                        assert(sorted(side, self@)) by {
                            assert forall|i: int, j: int| 0 <= i < j < self@.len() implies precedes(
                                side,
                                #[trigger] self@[i],
                                #[trigger] self@[j],
                            ) by {
                                assert(precedes(side, before[i], before[j]));
                            }
                        }
                        break;
                    } else {
                        let ghost rest = sweep(side, self@, *order);
                        assert(fills_before + (seq![legs.0, legs.1] + rest.0) =~= fills@ + rest.0);
                        assert(sorted(side, self@)) by {
                            assert forall|i: int, j: int| 0 <= i < j < self@.len() implies precedes(
                                side,
                                #[trigger] self@[i],
                                #[trigger] self@[j],
                            ) by {
                                assert(precedes(side, before[i + 1], before[j + 1]));
                            }
                        }
                        assert(all_open(self@)) by {
                            assert forall|i: int| 0 <= i < self@.len() implies #[trigger] self@[i].amount > 0 by {
                                assert(before[i + 1].amount > 0);
                            }
                        }
                    }
                },
            }
        }
        if order.amount == 0 {
            (fills, None)
        } else {
            (fills, Some(*order))
        }
    }

    /// Places `order` in the book at its priority position. Fails, leaving
    /// the book as it was, when an order with the same price and sequence
    /// number already rests here.
    pub fn insert_order(&mut self, order: &LimitOrder) -> (r: Result<(), ()>)
        requires
            old(self).wf(),
            order.amount > 0,
        ensures
            final(self).wf(),
            final(self).side() == old(self).side(),
            r is Ok <==> forall|i: int| 0 <= i < old(self)@.len() ==> !same_key(#[trigger] old(self)@[i], *order),
            r is Ok ==> exists|k: int| 0 <= k <= old(self)@.len() && final(self)@ == old(self)@.insert(k, *order),
            r is Ok ==> final(self)@.to_multiset() == old(self)@.to_multiset().insert(*order),
            r is Err ==> final(self)@ == old(self)@,
    {
        let ghost side = self.side();
        let ghost s = self@;
        let mut lo: usize = 0;
        let mut hi: usize = self.orders.len();
        while lo < hi
            invariant
                0 <= lo <= hi <= s.len(),
                self@ == s,
                self.side() == side,
                self.wf(),
                forall|k: int| 0 <= k < lo ==> precedes(side, #[trigger] s[k], *order),
                forall|k: int| hi <= k < s.len() ==> !precedes(side, #[trigger] s[k], *order),
            decreases hi - lo,
        {
            let mid = lo + (hi - lo) / 2;
            if order_precedes(self.side, &self.orders[mid], order) {
                assert forall|k: int| 0 <= k <= mid implies precedes(side, #[trigger] s[k], *order) by {
                    if k < mid {
                        assert(precedes(side, s[k], s[mid as int]));
                    }
                }
                lo = mid + 1;
            } else {
                assert forall|k: int| mid <= k < s.len() implies !precedes(side, #[trigger] s[k], *order) by {
                    if k > mid {
                        assert(precedes(side, s[mid as int], s[k]));
                    }
                }
                hi = mid;
            }
        }
        if lo < self.orders.len() && self.orders[lo].price == order.price && self.orders[lo].nonce == order.nonce {
            assert(same_key(s[lo as int], *order));
            return Err(());
        }
        assert forall|i: int| 0 <= i < s.len() implies !same_key(#[trigger] s[i], *order) by {
            if i > lo {
                assert(precedes(side, s[lo as int], s[i]));
            }
        }
        self.orders.insert(lo, *order);
        let ghost t = self@;
        assert(t =~= s.insert(lo as int, *order));
        assert(sorted(side, t)) by {
            assert forall|i: int, j: int| 0 <= i < j < t.len() implies precedes(side, #[trigger] t[i], #[trigger] t[j]) by {
                if j < lo {
                    assert(precedes(side, s[i], s[j]));
                } else if j == lo {
                } else if i < lo {
                    assert(precedes(side, s[i], s[j - 1]));
                } else if i == lo {
                    assert(!precedes(side, s[j - 1], *order));
                    assert(!same_key(s[j - 1], *order));
                } else {
                    assert(precedes(side, s[i - 1], s[j - 1]));
                }
            }
        }
        assert(t.to_multiset() =~= s.to_multiset().insert(*order)) by {
            t.to_multiset_ensures();
            assert(t.remove(lo as int) =~= s);
            assert(t[lo as int] == *order);
            assert(t.contains(*order));
        }
        assert(all_open(t)) by {
            assert forall|i: int| 0 <= i < t.len() implies #[trigger] t[i].amount > 0 by {
                if i < lo {
                    assert(s[i].amount > 0);
                } else if i > lo {
                    assert(s[i - 1].amount > 0);
                }
            }
        }
        Ok(())
    }

    /// How many orders rest in the book.
    pub fn len(&self) -> (r: usize)
        ensures
            r == self@.len(),
    {
        self.orders.len()
    }

    /// The resting orders, best first.
    pub fn to_vec(&self) -> (r: Vec<LimitOrder>)
        ensures
            r@ == self@,
    {
        let mut r: Vec<LimitOrder> = Vec::new();
        let mut i: usize = 0;
        while i < self.orders.len()
            invariant
                i <= self@.len(),
                r@ == self@.subrange(0, i as int),
            decreases self@.len() - i,
        {
            r.push(self.orders[i]);
            i = i + 1;
            assert(r@ =~= self@.subrange(0, i as int));
        }
        assert(r@ =~= self@);
        r
    }

    /// Whether no order rests in the book.
    pub fn is_empty(&self) -> (r: bool)
        ensures
            r == (self@.len() == 0),
    {
        self.orders.len() == 0
    }
}

} // verus!
