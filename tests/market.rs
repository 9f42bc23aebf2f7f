use simple_lob::{BuyLimitOrder, Fill, LimitOrder, Market, OrderSide, SellLimitOrder};

#[test]
fn orders_sort_by_price_then_nonce() {
    let mut orders: Vec<BuyLimitOrder> = vec![
        LimitOrder { trader_id: 1, nonce: 2, price: 2, amount: 1 }.into(),
        LimitOrder { trader_id: 1, nonce: 1, price: 2, amount: 1 }.into(),
        LimitOrder { trader_id: 1, nonce: 3, price: 1, amount: 1 }.into(),
    ];
    orders.sort_by(|a, b| a.partial_cmp(b).unwrap());

    assert_eq!(
        orders.as_slice(),
        &[
            LimitOrder { trader_id: 1, nonce: 1, price: 2, amount: 1 }.into(),
            LimitOrder { trader_id: 1, nonce: 2, price: 2, amount: 1 }.into(),
            LimitOrder { trader_id: 1, nonce: 3, price: 1, amount: 1 }.into(),
        ]
    );

    let mut orders: Vec<SellLimitOrder> = vec![
        LimitOrder { trader_id: 1, nonce: 2, price: 2, amount: 1 }.into(),
        LimitOrder { trader_id: 1, nonce: 1, price: 2, amount: 1 }.into(),
        LimitOrder { trader_id: 1, nonce: 3, price: 1, amount: 1 }.into(),
    ];
    orders.sort_by(|a, b| a.partial_cmp(b).unwrap());

    assert_eq!(
        orders.as_slice(),
        &[
            LimitOrder { trader_id: 1, nonce: 3, price: 1, amount: 1 }.into(),
            LimitOrder { trader_id: 1, nonce: 1, price: 2, amount: 1 }.into(),
            LimitOrder { trader_id: 1, nonce: 2, price: 2, amount: 1 }.into(),
        ]
    );
}

#[test]
fn add_resting_buys() {
    let mut lob = Market::default();

    for i in 1_u32..=5 {
        assert_eq!(lob.submit_order(i, 100 * i, i as i64, OrderSide::Buy), Ok(vec![]));
    }

    let seller_id = 6_u32;
    let fills = lob.submit_order(seller_id, 550, 1, OrderSide::Sell).unwrap();
    assert_eq!(
        fills.as_slice(),
        &[
            Fill::new(500, 5, OrderSide::Buy, 5, seller_id),
            Fill::new(500, 5, OrderSide::Sell, seller_id, 5),
            Fill::new(50, 4, OrderSide::Buy, 4, seller_id),
            Fill::new(50, 4, OrderSide::Sell, seller_id, 4),
        ]
    );
    let _fills = lob.submit_order(seller_id, 1050, 1, OrderSide::Sell);

    assert!(lob.buys().is_empty());
    assert_eq!(
        lob.sells().front(),
        Some(LimitOrder { trader_id: seller_id, price: 1, amount: 100, nonce: 6 })
    );
}

#[test]
fn add_resting_sells() {
    let mut lob = Market::default();

    for i in 1_u32..=5 {
        assert_eq!(lob.submit_order(i, 100 * i, i as i64, OrderSide::Sell), Ok(vec![]));
    }
    let buyer_id = 5_u32;

    let fills = lob.submit_order(buyer_id, 150, 5, OrderSide::Buy).unwrap();
    assert_eq!(
        fills.as_slice(),
        &[
            Fill::new(100, 1, OrderSide::Sell, 1, buyer_id),
            Fill::new(100, 1, OrderSide::Buy, buyer_id, 1),
            Fill::new(50, 2, OrderSide::Sell, 2, buyer_id),
            Fill::new(50, 2, OrderSide::Buy, buyer_id, 2),
        ]
    );

    let _fills = lob.submit_order(buyer_id, 1_450, 5, OrderSide::Buy);

    assert!(lob.sells().is_empty());
    assert_eq!(
        lob.buys().front(),
        Some(LimitOrder { trader_id: buyer_id, price: 5, amount: 100, nonce: 6 })
    );
}

#[test]
fn unfilled_buy() {
    let mut lob = Market::default();

    assert_eq!(lob.submit_order(1, 100, 5, OrderSide::Sell), Ok(vec![]));

    let fills = lob.submit_order(2, 100, 4, OrderSide::Buy).unwrap();
    assert!(fills.is_empty());

    assert_eq!(
        lob.buys().front(),
        Some(LimitOrder { trader_id: 2, price: 4, amount: 100, nonce: 1 })
    );
}

#[test]
fn unfilled_sell() {
    let mut lob = Market::default();

    assert_eq!(lob.submit_order(1, 100, 4, OrderSide::Buy), Ok(vec![]));

    let fills = lob.submit_order(2, 100, 5, OrderSide::Sell).unwrap();
    assert!(fills.is_empty());

    assert_eq!(
        lob.sells().front(),
        Some(LimitOrder { trader_id: 2, price: 5, amount: 100, nonce: 1 })
    );
}

fn volume(fills: &[Fill], side: OrderSide) -> u64 {
    fills.iter().filter(|f| f.side == side).map(|f| f.amount as u64).sum()
}

#[test]
fn quantity_is_conserved() {
    let mut lob = Market::new();
    lob.submit_order(1, 30, 10, OrderSide::Sell).unwrap();
    lob.submit_order(2, 40, 11, OrderSide::Sell).unwrap();
    lob.submit_order(3, 50, 12, OrderSide::Sell).unwrap();

    let fills = lob.submit_order(9, 100, 11, OrderSide::Buy).unwrap();
    assert_eq!(volume(&fills, OrderSide::Buy), volume(&fills, OrderSide::Sell));
    assert_eq!(volume(&fills, OrderSide::Buy), 70);
    let rest = lob.buys().front().unwrap();
    assert_eq!(rest.trader_id, 9);
    assert_eq!(volume(&fills, OrderSide::Buy) + rest.amount as u64, 100);
    assert_eq!(lob.sells().to_vec(), vec![LimitOrder { price: 12, nonce: 2, amount: 50, trader_id: 3 }]);
}

#[test]
fn price_time_priority() {
    let mut lob = Market::new();
    lob.submit_order(1, 10, 1, OrderSide::Buy).unwrap();
    lob.submit_order(2, 10, 2, OrderSide::Buy).unwrap();
    lob.submit_order(3, 10, 3, OrderSide::Buy).unwrap();
    lob.submit_order(4, 10, 3, OrderSide::Buy).unwrap();
    lob.submit_order(5, 10, 4, OrderSide::Buy).unwrap();

    let fills = lob.submit_order(7, 1000, 1, OrderSide::Sell).unwrap();
    let makers: Vec<(u32, i64)> =
        fills.iter().filter(|f| f.side == OrderSide::Buy).map(|f| (f.trader, f.price)).collect();
    assert_eq!(makers, vec![(5, 4), (3, 3), (4, 3), (2, 2), (1, 1)]);
    assert!(lob.buys().is_empty());
    assert_eq!(
        lob.sells().front(),
        Some(LimitOrder { price: 1, nonce: 5, amount: 950, trader_id: 7 })
    );
}

#[test]
fn books_never_cross_at_rest() {
    let mut lob = Market::new();
    let orders: [(u32, u32, i64, OrderSide); 8] = [
        (1, 10, 5, OrderSide::Buy),
        (2, 10, 7, OrderSide::Sell),
        (3, 5, 8, OrderSide::Buy),
        (4, 20, 6, OrderSide::Sell),
        (5, 30, 9, OrderSide::Buy),
        (6, 7, 3, OrderSide::Sell),
        (7, 4, 6, OrderSide::Buy),
        (8, 40, 6, OrderSide::Sell),
    ];
    for (trader, amount, price, side) in orders {
        lob.submit_order(trader, amount, price, side).unwrap();
        if let (Some(bid), Some(ask)) = (lob.buys().front(), lob.sells().front()) {
            assert!(bid.price < ask.price);
        }
    }
}

#[test]
fn zero_amount_is_a_no_op() {
    let mut lob = Market::new();
    lob.submit_order(1, 10, 5, OrderSide::Buy).unwrap();
    lob.submit_order(2, 10, 7, OrderSide::Sell).unwrap();
    let buys = lob.buys().to_vec();
    let sells = lob.sells().to_vec();

    assert_eq!(lob.submit_order(3, 0, 9, OrderSide::Buy), Ok(vec![]));
    assert_eq!(lob.submit_order(3, 0, 1, OrderSide::Sell), Ok(vec![]));
    assert_eq!(lob.buys().to_vec(), buys);
    assert_eq!(lob.sells().to_vec(), sells);
    assert_eq!(lob.nonce(), 2);
}

#[test]
fn partial_fill_leaves_remainder_resting() {
    let mut lob = Market::new();
    lob.submit_order(5, 100, 5, OrderSide::Buy).unwrap();
    lob.submit_order(4, 100, 4, OrderSide::Buy).unwrap();

    let fills = lob.submit_order(6, 150, 1, OrderSide::Sell).unwrap();
    assert_eq!(
        fills,
        vec![
            Fill::new(100, 5, OrderSide::Buy, 5, 6),
            Fill::new(100, 5, OrderSide::Sell, 6, 5),
            Fill::new(50, 4, OrderSide::Buy, 4, 6),
            Fill::new(50, 4, OrderSide::Sell, 6, 4),
        ]
    );
    assert_eq!(lob.buys().to_vec(), vec![LimitOrder { price: 4, nonce: 1, amount: 50, trader_id: 4 }]);
    assert!(lob.sells().is_empty());
}

#[test]
fn full_consumption_empties_the_book() {
    let mut lob = Market::new();
    lob.submit_order(5, 100, 5, OrderSide::Buy).unwrap();
    lob.submit_order(4, 100, 4, OrderSide::Buy).unwrap();
    lob.submit_order(6, 150, 1, OrderSide::Sell).unwrap();
    assert_eq!(lob.buys().front(), Some(LimitOrder { price: 4, nonce: 1, amount: 50, trader_id: 4 }));

    let fills = lob.submit_order(7, 50, 4, OrderSide::Sell).unwrap();
    assert_eq!(
        fills,
        vec![Fill::new(50, 4, OrderSide::Buy, 4, 7), Fill::new(50, 4, OrderSide::Sell, 7, 4)]
    );
    assert!(lob.buys().is_empty());
    assert!(lob.sells().is_empty());
    assert_eq!(lob.nonce(), 4);
}

#[test]
fn equal_prices_cross() {
    let mut lob = Market::new();
    lob.submit_order(1, 10, 5, OrderSide::Sell).unwrap();
    let fills = lob.submit_order(2, 10, 5, OrderSide::Buy).unwrap();
    assert_eq!(
        fills,
        vec![Fill::new(10, 5, OrderSide::Sell, 1, 2), Fill::new(10, 5, OrderSide::Buy, 2, 1)]
    );
    assert!(lob.buys().is_empty());
    assert!(lob.sells().is_empty());
}

#[test]
fn trade_happens_at_resting_price() {
    let mut lob = Market::new();
    lob.submit_order(1, 10, 3, OrderSide::Sell).unwrap();
    let fills = lob.submit_order(2, 4, 9, OrderSide::Buy).unwrap();
    assert_eq!(fills, vec![Fill::new(4, 3, OrderSide::Sell, 1, 2), Fill::new(4, 3, OrderSide::Buy, 2, 1)]);
    assert_eq!(lob.sells().front(), Some(LimitOrder { price: 3, nonce: 0, amount: 6, trader_id: 1 }));
    assert!(lob.buys().is_empty());
}

#[test]
fn sequence_advances_once_per_order() {
    let mut lob = Market::new();
    assert_eq!(lob.nonce(), 0);
    lob.submit_order(1, 10, 5, OrderSide::Sell).unwrap();
    lob.submit_order(1, 10, 6, OrderSide::Sell).unwrap();
    lob.submit_order(2, 20, 6, OrderSide::Buy).unwrap();
    assert_eq!(lob.nonce(), 3);
}
