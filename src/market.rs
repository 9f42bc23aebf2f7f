use vstd::prelude::*;

use crate::book::{lemma_sweep_shape, same_key, sweep, OrderBook};
use crate::order::{precedes, Fill, LimitOrder};
use crate::side::OrderSide;

verus! {

/// A market in one instrument: a book of resting buys, a book of resting
/// sells, and the sequence number that the next order will get.
pub struct Market {
    nonce: u64,
    buys: OrderBook,
    sells: OrderBook,
}

impl Market {
    /// The sequence number of the next accepted order.
    pub closed spec fn sequence(&self) -> u64 {
        self.nonce
    }

    /// The book of resting buys.
    pub closed spec fn buy_book(&self) -> OrderBook {
        self.buys
    }

    /// The book of resting sells.
    pub closed spec fn sell_book(&self) -> OrderBook {
        self.sells
    }

    /// The resting orders of `side`, best first.
    pub open spec fn resting(&self, side: OrderSide) -> Seq<LimitOrder> {
        match side {
            OrderSide::Buy => self.buy_book()@,
            OrderSide::Sell => self.sell_book()@,
        }
    }

    /// The best resting buy is priced below the best resting sell: the
    /// books never cross at rest.
    pub open spec fn uncrossed(&self) -> bool {
        self.buy_book()@.len() > 0 && self.sell_book()@.len() > 0
            ==> self.buy_book()@[0].price < self.sell_book()@[0].price
    }

    /// Each book is well formed and holds its own side; every resting order
    /// got its sequence number earlier, and no number rests in both books.
    pub open spec fn wf(&self) -> bool {
        &&& self.buy_book().wf()
        &&& self.sell_book().wf()
        &&& self.buy_book().side() == OrderSide::Buy
        &&& self.sell_book().side() == OrderSide::Sell
        &&& forall|i: int|
            0 <= i < self.buy_book()@.len() ==> #[trigger] self.buy_book()@[i].nonce < self.sequence()
        &&& forall|i: int|
            0 <= i < self.sell_book()@.len() ==> #[trigger] self.sell_book()@[i].nonce < self.sequence()
        &&& forall|i: int, j: int|
            0 <= i < self.buy_book()@.len() && 0 <= j < self.sell_book()@.len()
                ==> #[trigger] self.buy_book()@[i].nonce != #[trigger] self.sell_book()@[j].nonce
        &&& self.uncrossed()
    }

    /// An empty market whose first order gets sequence number 0.
    pub fn new() -> (r: Market)
        ensures
            r.wf(),
            r.sequence() == 0,
            r.buy_book()@ == Seq::<LimitOrder>::empty(),
            r.sell_book()@ == Seq::<LimitOrder>::empty(),
    {
        Market { nonce: 0, buys: OrderBook::new(OrderSide::Buy), sells: OrderBook::new(OrderSide::Sell) }
    }

    /// Submits an order of `amount` at `price` for `trader_id` on `side`.
    ///
    /// An amount of zero is a no-op. Otherwise the order gets the next
    /// sequence number, is matched against the book of the other side as
    /// [`sweep`] describes, and what is left of it, if anything, rests in the
    /// book of its own side. The fills come back in the order they happened.
    /// When every sequence number has been used, a non-zero order is refused
    /// and nothing changes.
    pub fn submit_order(&mut self, trader_id: u32, amount: u32, price: i64, side: OrderSide) -> (r: Result<Vec<Fill>, ()>)
        requires
            old(self).wf(),
        ensures
            final(self).wf(),
            amount == 0 ==> (r matches Ok(fills) && fills@.len() == 0) && *final(self) == *old(self),
            amount > 0 && old(self).sequence() == u64::MAX ==> r is Err && *final(self) == *old(self),
            amount > 0 && old(self).sequence() < u64::MAX ==> {
                let incoming = LimitOrder { price, nonce: old(self).sequence(), amount, trader_id };
                let m = sweep(side.flip(), old(self).resting(side.flip()), incoming);
                &&& (r matches Ok(fills) && fills@ == m.0)
                &&& final(self).sequence() == old(self).sequence() + 1
                &&& final(self).resting(side.flip()) == m.1
                &&& m.2.amount == 0 ==> final(self).resting(side) == old(self).resting(side)
                &&& m.2.amount > 0 ==> exists|k: int|
                    0 <= k <= old(self).resting(side).len()
                        && final(self).resting(side) == old(self).resting(side).insert(k, m.2)
            },
    {
        if amount == 0 {
            return Ok(Vec::new());
        }
        if self.nonce == u64::MAX {
            return Err(());
        }
        let ghost pre = *self;
        let mut order = LimitOrder { price, nonce: self.nonce, amount, trader_id };
        let ghost incoming = order;
        let fills = match side {
            OrderSide::Buy => {
                let (fills, unfilled) = self.sells.submit_order(&mut order);
                proof {
                    lemma_sweep_shape(OrderSide::Sell, pre.sells@, incoming);
                }
                if let Some(rest) = unfilled {
                    assert forall|i: int| 0 <= i < pre.buys@.len() implies !same_key(#[trigger] pre.buys@[i], rest) by {
                        assert(pre.buys@[i].nonce < pre.nonce);
                    }
                    let inserted = self.buys.insert_order(&rest);
                    assert(inserted is Ok);
                    proof {
                        let k = choose|k: int| 0 <= k <= pre.buys@.len() && self.buys@ == pre.buys@.insert(k, rest);
                        assert(self.resting(side) == pre.resting(side).insert(k, rest));
                    }
                }
                fills
            },
            OrderSide::Sell => {
                let (fills, unfilled) = self.buys.submit_order(&mut order);
                proof {
                    lemma_sweep_shape(OrderSide::Buy, pre.buys@, incoming);
                }
                if let Some(rest) = unfilled {
                    assert forall|i: int| 0 <= i < pre.sells@.len() implies !same_key(#[trigger] pre.sells@[i], rest) by {
                        assert(pre.sells@[i].nonce < pre.nonce);
                    }
                    let inserted = self.sells.insert_order(&rest);
                    assert(inserted is Ok);
                    proof {
                        let k = choose|k: int| 0 <= k <= pre.sells@.len() && self.sells@ == pre.sells@.insert(k, rest);
                        assert(self.resting(side) == pre.resting(side).insert(k, rest));
                    }
                }
                fills
            },
        };
        self.nonce = self.nonce + 1;
        proof {
            self.lemma_submit_keeps_wf(pre, side, incoming);
        }
        Ok(fills)
    }

    /// After a submission as [`Market::submit_order`] makes it, the market is
    /// well formed again.
    proof fn lemma_submit_keeps_wf(&self, pre: Market, side: OrderSide, incoming: LimitOrder)
        requires
            pre.wf(),
            incoming.amount > 0,
            incoming.nonce == pre.sequence(),
            self.sequence() == pre.sequence() + 1,
            self.buy_book().wf(),
            self.sell_book().wf(),
            self.buy_book().side() == OrderSide::Buy,
            self.sell_book().side() == OrderSide::Sell,
            self.resting(side.flip()) == sweep(side.flip(), pre.resting(side.flip()), incoming).1,
            sweep(side.flip(), pre.resting(side.flip()), incoming).2.amount == 0
                ==> self.resting(side) == pre.resting(side),
            sweep(side.flip(), pre.resting(side.flip()), incoming).2.amount > 0 ==> exists|k: int|
                0 <= k <= pre.resting(side).len() && self.resting(side) == pre.resting(side).insert(
                    k,
                    sweep(side.flip(), pre.resting(side.flip()), incoming).2,
                ),
        ensures
            self.wf(),
    {
        let other = side.flip();
        let before = pre.resting(other);
        let m = sweep(other, before, incoming);
        lemma_sweep_shape(other, before, incoming);
        let d = before.len() - m.1.len();
        let own0 = pre.resting(side);
        let own1 = self.resting(side);
        // Every order now on the other side sat there before, at place `i + d`.
        assert forall|i: int| 0 <= i < m.1.len() implies #[trigger] m.1[i].nonce == before[i + d].nonce
            && m.1[i].price == before[i + d].price by {
            assert(same_key(m.1[i], before[i + d]));
        }
        // Every order now on its own side sat there before, or is what is left of `incoming`.
        let k = if m.2.amount > 0 {
            choose|k: int| 0 <= k <= own0.len() && own1 == own0.insert(k, m.2)
        } else {
            own0.len() as int
        };
        assert(m.2.amount > 0 ==> own1 == own0.insert(k, m.2));
        assert forall|i: int| 0 <= i < own1.len() implies (#[trigger] own1[i] == m.2 && m.2.amount > 0 && i == k)
            || (i < k && own1[i] == own0[i]) || (i > k && own1[i] == own0[i - 1]) || (m.2.amount == 0 && own1[i] == own0[i]) by {
        }
        assert forall|i: int| 0 <= i < own1.len() implies #[trigger] own1[i].nonce < self.sequence() by {
            if m.2.amount > 0 && i == k {
            } else if m.2.amount > 0 && i > k {
                assert(own0[i - 1].nonce < pre.sequence());
            } else {
                assert(own0[i].nonce < pre.sequence());
            }
        }
        assert forall|i: int| 0 <= i < m.1.len() implies #[trigger] m.1[i].nonce < self.sequence() by {
            assert(before[i + d].nonce < pre.sequence());
        }
        // No sequence number rests on both sides.
        assert forall|i: int, j: int| 0 <= i < own1.len() && 0 <= j < m.1.len()
            implies #[trigger] own1[i].nonce != #[trigger] m.1[j].nonce by {
            assert(m.1[j].nonce == before[j + d].nonce);
            assert(before[j + d].nonce < pre.sequence());
            if m.2.amount > 0 && i == k {
            } else if m.2.amount > 0 && i > k {
                assert(own0[i - 1].nonce != before[j + d].nonce);
            } else {
                assert(own0[i].nonce != before[j + d].nonce);
            }
        }
        // The books do not cross at rest.
        if own1.len() > 0 && m.1.len() > 0 {
            if d > 0 {
                assert(precedes(other, before[0], before[d]));
            }
            if m.2.amount > 0 && k == 0 {
                assert(own1[0] == m.2);
            } else {
                assert(own1[0] == own0[0]);
            }
        }
        match side {
            OrderSide::Buy => {
                assert(self.uncrossed());
            },
            OrderSide::Sell => {
                assert(self.uncrossed());
            },
        }
    }

    /// The book of resting buys.
    pub fn buys(&self) -> (r: &OrderBook)
        ensures
            *r == self.buy_book(),
    {
        &self.buys
    }

    /// The book of resting sells.
    pub fn sells(&self) -> (r: &OrderBook)
        ensures
            *r == self.sell_book(),
    {
        &self.sells
    }

    /// The sequence number of the next accepted order.
    pub fn nonce(&self) -> (r: u64)
        ensures
            r == self.sequence(),
    {
        self.nonce
    }
}

impl Default for Market {
    fn default() -> (r: Market)
        ensures
            r.wf(),
            r.sequence() == 0,
            r.buy_book()@ == Seq::<LimitOrder>::empty(),
            r.sell_book()@ == Seq::<LimitOrder>::empty(),
    {
        Market::new()
    }
}

} // verus!
