use nft_marketplace::{Balances, Config, Error, Event, Order, Pallet};

const X: u64 = 1;
const Y: u64 = 2;

fn minted_and_listed() -> Pallet {
    let mut m = Pallet::new();
    assert_eq!(m.mint(X), Ok(Event::NFTMinted(0, X)));
    assert_eq!(m.sell(X, 0, 100), Ok(Event::SellOrderCreated(0, 100)));
    m
}

#[test]
fn mint_gives_token_zero_to_caller() {
    let mut m = Pallet::new();
    assert_eq!(m.mint(X), Ok(Event::NFTMinted(0, X)));
    assert_eq!(m.get_nft_details(0), Some((X, 0)));
    assert_eq!(m.get_number_of_nfts_owned(X), 1);
    assert_eq!(m.get_token_ids_of_owned_nfts(X, 0), Some(0));
    assert_eq!(m.get_next_token_id(), 1);
}

#[test]
fn mint_then_owner_at_prior_count() {
    let mut m = Pallet::new();
    m.mint(X).unwrap();
    m.mint(Y).unwrap();
    m.mint(X).unwrap();
    let before = m.get_number_of_nfts_owned(X);
    assert_eq!(before, 2);
    assert_eq!(m.mint(X), Ok(Event::NFTMinted(3, X)));
    assert_eq!(m.get_nft_details(3), Some((X, before)));
    assert_eq!(m.get_number_of_nfts_owned(Y), 1);
    assert_eq!(m.get_nft_details(1), Some((Y, 0)));
}

#[test]
fn sell_creates_first_order() {
    let m = minted_and_listed();
    assert_eq!(m.get_number_of_sell_orders(), 1);
    assert_eq!(m.get_sell_order(0), Some(Order { token_id: 0, sell_price: 100 }));
    assert_eq!(m.is_onsale(0), Some(0));
}

#[test]
fn buy_moves_balance_token_and_order() {
    let mut m = minted_and_listed();
    let mut b = Balances::new();
    b.set_balance(Y, 250);
    b.set_balance(X, 10);
    assert_eq!(m.buy(&mut b, Y, 0), Ok(Event::NFTSold(Y, X, 100)));
    assert_eq!(b.free_balance(Y), 150);
    assert_eq!(b.free_balance(X), 110);
    assert_eq!(m.get_nft_details(0), Some((Y, 0)));
    assert_eq!(m.get_number_of_nfts_owned(Y), 1);
    assert_eq!(m.get_number_of_nfts_owned(X), 0);
    assert_eq!(m.get_token_ids_of_owned_nfts(X, 0), None);
    assert_eq!(m.get_number_of_sell_orders(), 0);
    assert_eq!(m.is_onsale(0), None);
}

#[test]
fn cancel_of_unlisted_token_fails() {
    let mut m = minted_and_listed();
    let mut b = Balances::new();
    b.set_balance(Y, 100);
    m.buy(&mut b, Y, 0).unwrap();
    assert_eq!(m.cancel_order(Y, 0), Err(Error::TokenNotOnSale));
}

#[test]
fn former_owner_cannot_sell() {
    let mut m = minted_and_listed();
    let mut b = Balances::new();
    b.set_balance(Y, 100);
    m.buy(&mut b, Y, 0).unwrap();
    assert_eq!(m.sell(X, 0, 100), Err(Error::NotTokenOwner));
    assert_eq!(m.get_number_of_sell_orders(), 0);
}

#[test]
fn buy_without_funds_changes_nothing() {
    let mut m = minted_and_listed();
    let mut b = Balances::new();
    b.set_balance(Y, 99);
    assert_eq!(m.buy(&mut b, Y, 0), Err(Error::NotEnoughBalance));
    assert_eq!(b.free_balance(Y), 99);
    assert_eq!(b.free_balance(X), 0);
    assert_eq!(m.get_nft_details(0), Some((X, 0)));
    assert_eq!(m.get_number_of_sell_orders(), 1);
    assert_eq!(m.is_onsale(0), Some(0));
}

#[test]
fn refused_payment_changes_nothing() {
    let mut m = minted_and_listed();
    let mut b = Balances::new();
    b.set_balance(Y, 100);
    b.set_balance(X, u128::MAX);
    assert_eq!(m.buy(&mut b, Y, 0), Err(Error::TransferFailed));
    assert_eq!(b.free_balance(Y), 100);
    assert_eq!(b.free_balance(X), u128::MAX);
    assert_eq!(m.get_nft_details(0), Some((X, 0)));
    assert_eq!(m.is_onsale(0), Some(0));
}

#[test]
fn buy_of_unlisted_token_fails() {
    let mut m = Pallet::new();
    m.mint(X).unwrap();
    let mut b = Balances::new();
    b.set_balance(Y, 1000);
    assert_eq!(m.buy(&mut b, Y, 0), Err(Error::TokenNotOnSale));
    assert_eq!(m.buy(&mut b, Y, 5), Err(Error::TokenNotOnSale));
    assert_eq!(b.free_balance(Y), 1000);
}

#[test]
fn cancel_twice_fails_second_time_and_keeps_state() {
    let mut m = Pallet::new();
    for _ in 0..3 {
        m.mint(X).unwrap();
    }
    for t in 0..3u64 {
        m.sell(X, t, 10 + t as u128).unwrap();
    }
    assert_eq!(m.cancel_order(X, 0), Ok(Event::CancelledOrder(0)));
    let orders: Vec<Option<Order>> = (0..3u128).map(|i| m.get_sell_order(i)).collect();
    assert_eq!(m.cancel_order(X, 0), Err(Error::TokenNotOnSale));
    let again: Vec<Option<Order>> = (0..3u128).map(|i| m.get_sell_order(i)).collect();
    assert_eq!(orders, again);
    assert_eq!(m.get_number_of_sell_orders(), 2);
    assert_eq!(m.is_onsale(0), None);
    assert_eq!(m.is_onsale(2), Some(0));
    assert_eq!(m.is_onsale(1), Some(1));
}

#[test]
fn swap_delete_moves_last_order_into_gap() {
    let mut m = Pallet::new();
    for t in 0..5u64 {
        m.mint(X).unwrap();
        m.sell(X, t, 100 * (t as u128 + 1)).unwrap();
    }
    assert_eq!(m.get_number_of_sell_orders(), 5);
    assert_eq!(m.cancel_order(X, 1), Ok(Event::CancelledOrder(1)));
    assert_eq!(m.get_number_of_sell_orders(), 4);
    assert_eq!(m.get_sell_order(1), Some(Order { token_id: 4, sell_price: 500 }));
    assert_eq!(m.is_onsale(4), Some(1));
    assert_eq!(m.is_onsale(1), None);
    assert_eq!(m.get_sell_order(4), None);
    assert_eq!(m.get_sell_order(0), Some(Order { token_id: 0, sell_price: 100 }));
    assert_eq!(m.get_sell_order(2), Some(Order { token_id: 2, sell_price: 300 }));
    assert_eq!(m.get_sell_order(3), Some(Order { token_id: 3, sell_price: 400 }));
}

#[test]
fn owner_arrays_stay_compact_after_sale() {
    let mut m = Pallet::new();
    for _ in 0..4 {
        m.mint(X).unwrap();
    }
    m.sell(X, 1, 5).unwrap();
    let mut b = Balances::new();
    b.set_balance(Y, 5);
    m.buy(&mut b, Y, 1).unwrap();
    assert_eq!(m.get_number_of_nfts_owned(X), 3);
    let held: Vec<Option<u64>> = (0..4u64).map(|p| m.get_token_ids_of_owned_nfts(X, p)).collect();
    assert_eq!(held, vec![Some(0), Some(3), Some(2), None]);
    assert_eq!(m.get_nft_details(3), Some((X, 1)));
    assert_eq!(m.get_nft_details(1), Some((Y, 0)));
    for p in 0..3u64 {
        let t = m.get_token_ids_of_owned_nfts(X, p).unwrap();
        assert_eq!(m.get_nft_details(t), Some((X, p)));
    }
}

#[test]
fn order_book_reverse_index_matches() {
    let mut m = Pallet::new();
    for t in 0..4u64 {
        m.mint(Y).unwrap();
        m.sell(Y, t, 7).unwrap();
    }
    m.cancel_order(Y, 0).unwrap();
    m.cancel_order(Y, 2).unwrap();
    let n = m.get_number_of_sell_orders();
    assert_eq!(n, 2);
    for i in 0..n {
        let o = m.get_sell_order(i).unwrap();
        assert_eq!(m.is_onsale(o.token_id), Some(i));
    }
    for t in 0..4u64 {
        if let Some(i) = m.is_onsale(t) {
            assert_eq!(m.get_sell_order(i).unwrap().token_id, t);
        }
    }
}

#[test]
fn buying_own_token_keeps_owner() {
    let mut m = minted_and_listed();
    m.mint(X).unwrap();
    let mut b = Balances::new();
    b.set_balance(X, 100);
    assert_eq!(m.buy(&mut b, X, 0), Ok(Event::NFTSold(X, X, 100)));
    assert_eq!(b.free_balance(X), 100);
    assert_eq!(m.get_number_of_nfts_owned(X), 2);
    assert_eq!(m.get_nft_details(1), Some((X, 0)));
    assert_eq!(m.get_nft_details(0), Some((X, 1)));
    assert_eq!(m.is_onsale(0), None);
}

#[test]
fn sell_errors() {
    let mut m = Pallet::new();
    assert_eq!(m.sell(X, 0, 1), Err(Error::InvalidTokenID));
    m.mint(X).unwrap();
    assert_eq!(m.sell(Y, 0, 1), Err(Error::NotTokenOwner));
    m.sell(X, 0, 1).unwrap();
    assert_eq!(m.sell(X, 0, 2), Err(Error::TokenAlreadyOnSale));
    assert_eq!(m.get_number_of_sell_orders(), 1);
}

#[test]
fn cancel_errors() {
    let mut m = Pallet::new();
    assert_eq!(m.cancel_order(X, 0), Err(Error::InvalidTokenID));
    m.mint(X).unwrap();
    m.sell(X, 0, 3).unwrap();
    assert_eq!(m.cancel_order(Y, 0), Err(Error::NotTokenOwner));
    assert_eq!(m.is_onsale(0), Some(0));
}

#[test]
fn unpaid_purchase_changes_nothing() {
    let mut m = minted_and_listed();
    assert_eq!(m.complete_purchase(Y, 0, false), Err(Error::TransferFailed));
    assert_eq!(m.get_nft_details(0), Some((X, 0)));
    assert_eq!(m.is_onsale(0), Some(0));
    assert_eq!(m.get_number_of_sell_orders(), 1);
}

#[test]
fn paid_purchase_hands_token_over() {
    let mut m = minted_and_listed();
    assert_eq!(m.complete_purchase(Y, 0, true), Ok(Event::NFTSold(Y, X, 100)));
    assert_eq!(m.get_nft_details(0), Some((Y, 0)));
    assert_eq!(m.is_onsale(0), None);
    assert_eq!(m.complete_purchase(Y, 0, true), Err(Error::TokenNotOnSale));
}
