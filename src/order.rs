use std::cmp::Ordering;

use vstd::prelude::*;

use crate::side::OrderSide;

verus! {

/// A trade leg: one party's view of a completed match.
///
/// `side` is the side of `trader`; `counter_party` traded on the other side.
/// Prices are integer ticks.
#[derive(PartialEq, Eq, Structural, Clone, Copy, Debug)]
pub struct Fill {
    pub side: OrderSide,
    pub amount: u32,
    pub price: i64,
    pub trader: u32,
    pub counter_party: u32,
}

impl Fill {
    pub fn new(amount: u32, price: i64, side: OrderSide, trader: u32, counter_party: u32) -> (r: Fill)
        ensures
            r == (Fill { side, amount, price, trader, counter_party }),
    {
        Fill { amount, price, side, trader, counter_party }
    }
}

/// An order of either side: its price in ticks, the sequence number that
/// breaks ties between equal prices, the quantity still open and its owner.
#[derive(PartialEq, Eq, Structural, Clone, Copy, Debug, Default)]
pub struct LimitOrder {
    pub price: i64,
    pub nonce: u64,
    pub amount: u32,
    pub trader_id: u32,
}

impl LimitOrder {
    /// The same order with `amount` left open.
    pub open spec fn with_amount(self, amount: u32) -> LimitOrder {
        LimitOrder { amount, ..self }
    }

    /// Trades `self`, resting on `side`, against `other` for as much as both
    /// hold, at `self`'s price. Returns the leg of `self`'s owner, then the leg
    /// of `other`'s owner.
    pub fn try_fill(&mut self, other: &mut LimitOrder, side: OrderSide) -> (r: (Fill, Fill))
        ensures
            r == fill_pair(side, *old(self), *old(other)),
            *final(self) == old(self).with_amount(
                (old(self).amount - traded(*old(self), *old(other))) as u32,
            ),
            *final(other) == old(other).with_amount(
                (old(other).amount - traded(*old(self), *old(other))) as u32,
            ),
    {
        let fill_amount: u32 = if self.amount <= other.amount {
            let amount = self.amount;
            other.amount = other.amount - amount;
            self.amount = 0;
            amount
        } else {
            let amount = other.amount;
            self.amount = self.amount - amount;
            other.amount = 0;
            amount
        };
        (
            Fill::new(fill_amount, self.price, side, self.trader_id, other.trader_id),
            Fill::new(fill_amount, self.price, side.opposite(), other.trader_id, self.trader_id),
        )
    }
}

/// How much changes hands when `resting` and `incoming` match: the smaller
/// of the two open amounts.
pub open spec fn traded(resting: LimitOrder, incoming: LimitOrder) -> u32 {
    if resting.amount <= incoming.amount {
        resting.amount
    } else {
        incoming.amount
    }
}

/// The two legs of a match between `resting` (on `side`) and `incoming`: the
/// resting owner's leg first, both at the resting price.
pub open spec fn fill_pair(side: OrderSide, resting: LimitOrder, incoming: LimitOrder) -> (Fill, Fill) {
    let amount = traded(resting, incoming);
    (
        Fill {
            side,
            amount,
            price: resting.price,
            trader: resting.trader_id,
            counter_party: incoming.trader_id,
        },
        Fill {
            side: side.flip(),
            amount,
            price: resting.price,
            trader: incoming.trader_id,
            counter_party: resting.trader_id,
        },
    )
}

/// Whether an order resting on `side` can trade with an incoming order of the
/// other side: the buy price is at least the sell price.
pub open spec fn crosses(side: OrderSide, resting: LimitOrder, incoming: LimitOrder) -> bool {
    match side {
        OrderSide::Buy => resting.price >= incoming.price,
        OrderSide::Sell => resting.price <= incoming.price,
    }
}

/// The priority order of a book on `side`: `a` is matched before `b`. Buys
/// go highest price first, sells lowest price first; at one price the lower
/// sequence number (the older order) goes first.
pub open spec fn precedes(side: OrderSide, a: LimitOrder, b: LimitOrder) -> bool {
    match side {
        OrderSide::Buy => a.price > b.price || (a.price == b.price && a.nonce < b.nonce),
        OrderSide::Sell => a.price < b.price || (a.price == b.price && a.nonce < b.nonce),
    }
}

/// Tells whether `a` comes before `b` in a book on `side`.
pub fn order_precedes(side: OrderSide, a: &LimitOrder, b: &LimitOrder) -> (r: bool)
    ensures
        r == precedes(side, *a, *b),
{
    match side {
        OrderSide::Buy => a.price > b.price || (a.price == b.price && a.nonce < b.nonce),
        OrderSide::Sell => a.price < b.price || (a.price == b.price && a.nonce < b.nonce),
    }
}

/// A buy order. It can only be matched against a [`SellLimitOrder`].
#[derive(PartialEq, Eq, Structural, Clone, Copy, Debug, Default)]
pub struct BuyLimitOrder(pub LimitOrder);

/// A sell order. It can only be matched against a [`BuyLimitOrder`].
#[derive(PartialEq, Eq, Structural, Clone, Copy, Debug, Default)]
pub struct SellLimitOrder(pub LimitOrder);

impl From<LimitOrder> for BuyLimitOrder {
    fn from(f: LimitOrder) -> (r: BuyLimitOrder)
        ensures
            r.0 == f,
    {
        BuyLimitOrder(f)
    }
}

impl vstd::std_specs::convert::FromSpecImpl<LimitOrder> for BuyLimitOrder {
    open spec fn obeys_from_spec() -> bool {
        true
    }

    open spec fn from_spec(f: LimitOrder) -> BuyLimitOrder {
        BuyLimitOrder(f)
    }
}

impl From<LimitOrder> for SellLimitOrder {
    fn from(f: LimitOrder) -> (r: SellLimitOrder)
        ensures
            r.0 == f,
    {
        SellLimitOrder(f)
    }
}

impl vstd::std_specs::convert::FromSpecImpl<LimitOrder> for SellLimitOrder {
    open spec fn obeys_from_spec() -> bool {
        true
    }

    open spec fn from_spec(f: LimitOrder) -> SellLimitOrder {
        SellLimitOrder(f)
    }
}

/// Where `a` stands against `b` in a book on `side`: `Less` when `a` is
/// matched first, `Equal` when both have the same price and sequence number.
pub open spec fn priority_cmp(side: OrderSide, a: LimitOrder, b: LimitOrder) -> Ordering {
    if precedes(side, a, b) {
        Ordering::Less
    } else if precedes(side, b, a) {
        Ordering::Greater
    } else {
        Ordering::Equal
    }
}

/// Compares `a` and `b` by their priority in a book on `side`.
pub fn compare_priority(side: OrderSide, a: &LimitOrder, b: &LimitOrder) -> (r: Ordering)
    ensures
        r == priority_cmp(side, *a, *b),
{
    if order_precedes(side, a, b) {
        Ordering::Less
    } else if order_precedes(side, b, a) {
        Ordering::Greater
    } else {
        Ordering::Equal
    }
}

/// Buys order by priority: higher price first, then lower sequence number.
impl PartialOrd for BuyLimitOrder {
    fn partial_cmp(&self, other: &BuyLimitOrder) -> Option<Ordering> {
        Some(compare_priority(OrderSide::Buy, &self.0, &other.0))
    }
}

impl vstd::std_specs::cmp::PartialOrdSpecImpl for BuyLimitOrder {
    open spec fn obeys_partial_cmp_spec() -> bool {
        true
    }

    open spec fn partial_cmp_spec(&self, other: &BuyLimitOrder) -> Option<Ordering> {
        Some(priority_cmp(OrderSide::Buy, self.0, other.0))
    }
}

/// Sells order by priority: lower price first, then lower sequence number.
impl PartialOrd for SellLimitOrder {
    fn partial_cmp(&self, other: &SellLimitOrder) -> Option<Ordering> {
        Some(compare_priority(OrderSide::Sell, &self.0, &other.0))
    }
}

impl vstd::std_specs::cmp::PartialOrdSpecImpl for SellLimitOrder {
    open spec fn obeys_partial_cmp_spec() -> bool {
        true
    }

    open spec fn partial_cmp_spec(&self, other: &SellLimitOrder) -> Option<Ordering> {
        Some(priority_cmp(OrderSide::Sell, self.0, other.0))
    }
}

/// An order of one side that can be matched against an order of the other.
/// `Opposite` is the only type `try_fill` accepts, so a buy never meets a buy.
pub trait TryFill: Sized {
    type Opposite;

    /// The side this order is on.
    spec fn side() -> OrderSide;

    /// The order itself.
    spec fn order(&self) -> LimitOrder;

    /// The order that an order of the other side carries.
    spec fn opposite_order(other: &Self::Opposite) -> LimitOrder;

    /// Whether nothing of the order is left open.
    fn is_zero(&self) -> (r: bool)
        ensures
            r == (self.order().amount == 0),
    ;

    /// Matches this order, resting, against an incoming order of the other
    /// side. If the two cross, they trade for the smaller open amount at this
    /// order's price and both legs come back; otherwise nothing changes and
    /// `None` comes back.
    fn try_fill(&mut self, other: &mut Self::Opposite) -> (r: Option<(Fill, Fill)>)
        ensures
            crosses(Self::side(), old(self).order(), Self::opposite_order(old(other))) ==> {
                &&& r == Some(fill_pair(Self::side(), old(self).order(), Self::opposite_order(old(other))))
                &&& final(self).order() == old(self).order().with_amount(
                    (old(self).order().amount - traded(old(self).order(), Self::opposite_order(old(other)))) as u32,
                )
                &&& Self::opposite_order(final(other)) == Self::opposite_order(old(other)).with_amount(
                    (Self::opposite_order(old(other)).amount - traded(
                        old(self).order(),
                        Self::opposite_order(old(other)),
                    )) as u32,
                )
            },
            !crosses(Self::side(), old(self).order(), Self::opposite_order(old(other))) ==> {
                &&& r is None
                &&& final(self).order() == old(self).order()
                &&& Self::opposite_order(final(other)) == Self::opposite_order(old(other))
            },
    ;
}

impl TryFill for BuyLimitOrder {
    type Opposite = SellLimitOrder;

    open spec fn side() -> OrderSide {
        OrderSide::Buy
    }

    open spec fn order(&self) -> LimitOrder {
        self.0
    }

    open spec fn opposite_order(other: &SellLimitOrder) -> LimitOrder {
        other.0
    }

    fn is_zero(&self) -> (r: bool) {
        self.0.amount == 0
    }

    fn try_fill(&mut self, other: &mut SellLimitOrder) -> (r: Option<(Fill, Fill)>) {
        if self.0.price >= other.0.price {
            Some(self.0.try_fill(&mut other.0, OrderSide::Buy))
        } else {
            None
        }
    }
}

impl TryFill for SellLimitOrder {
    type Opposite = BuyLimitOrder;

    open spec fn side() -> OrderSide {
        OrderSide::Sell
    }

    open spec fn order(&self) -> LimitOrder {
        self.0
    }

    open spec fn opposite_order(other: &BuyLimitOrder) -> LimitOrder {
        other.0
    }

    fn is_zero(&self) -> (r: bool) {
        self.0.amount == 0
    }

    fn try_fill(&mut self, other: &mut BuyLimitOrder) -> (r: Option<(Fill, Fill)>) {
        if self.0.price <= other.0.price {
            Some(self.0.try_fill(&mut other.0, OrderSide::Sell))
        } else {
            None
        }
    }
}

} // verus!
