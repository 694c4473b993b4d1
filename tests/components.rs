use nft_marketplace::{Balances, Config, Error, Order, OrderBook, TokenRegistry};

#[test]
fn delist_on_empty_book_fails() {
    let mut b = OrderBook::new();
    assert_eq!(b.delist(0), Err(Error::NoSellOrdersFound));
}

#[test]
fn delist_past_end_fails() {
    let mut b = OrderBook::new();
    assert_eq!(b.list(9, 1), Ok(0));
    assert_eq!(b.delist(1), Err(Error::SellOrderNotFound));
    assert_eq!(b.order_count(), 1);
}

#[test]
fn list_and_delist_last() {
    let mut b = OrderBook::new();
    assert_eq!(b.list(9, 1), Ok(0));
    assert_eq!(b.list(4, 2), Ok(1));
    assert_eq!(b.list(9, 3), Err(Error::TokenAlreadyOnSale));
    assert_eq!(b.order_of(4), Ok(1));
    assert_eq!(b.delist(1), Ok(()));
    assert_eq!(b.order_of(4), Err(Error::TokenNotOnSale));
    assert_eq!(b.order_at(0), Some(Order { token_id: 9, sell_price: 1 }));
    assert_eq!(b.order_count(), 1);
}

#[test]
fn registry_transfer_swaps_last_into_gap() {
    let mut r = TokenRegistry::new();
    for _ in 0..3 {
        r.mint(5).unwrap();
    }
    assert_eq!(r.owner_of(0), Ok((5, 0)));
    assert_eq!(r.owner_of(3), Err(Error::InvalidTokenID));
    assert_eq!(r.transfer(0, 6), Ok(()));
    assert_eq!(r.owner_of(0), Ok((6, 0)));
    assert_eq!(r.owner_of(2), Ok((5, 0)));
    assert_eq!(r.token_at(5, 0), Some(2));
    assert_eq!(r.token_at(5, 1), Some(1));
    assert_eq!(r.token_at(5, 2), None);
    assert_eq!(r.count_of(5), 2);
    assert_eq!(r.count_of(6), 1);
    assert_eq!(r.next_token_id(), 3);
}

#[test]
fn ledger_transfer_rules() {
    let mut b = Balances::new();
    b.set_balance(1, 50);
    assert!(!b.transfer(1, 2, 51));
    assert_eq!(b.free_balance(1), 50);
    assert!(b.transfer(1, 2, 20));
    assert_eq!(b.free_balance(1), 30);
    assert_eq!(b.free_balance(2), 20);
    assert!(b.transfer(2, 2, 20));
    assert_eq!(b.free_balance(2), 20);
}
