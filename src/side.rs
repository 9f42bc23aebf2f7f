use vstd::prelude::*;

verus! {

/// Which side of the market an order or a trade leg belongs to.
#[derive(PartialEq, Eq, Structural, Clone, Copy, Debug)]
pub enum OrderSide {
    Buy,
    Sell,
}

impl OrderSide {
    /// The other side of the market.
    pub open spec fn flip(self) -> OrderSide {
        match self {
            OrderSide::Buy => OrderSide::Sell,
            OrderSide::Sell => OrderSide::Buy,
        }
    }

    pub fn opposite(&self) -> (r: OrderSide)
        ensures
            r == self.flip(),
            r != *self,
    {
        match self {
            OrderSide::Buy => OrderSide::Sell,
            OrderSide::Sell => OrderSide::Buy,
        }
    }
}

} // verus!
