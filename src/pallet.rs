//! The marketplace engine: Mint, Sell, CancelOrder and Buy as atomic state
//! transitions over the token registry and the order book. Each either
//! succeeds and reports an event, or fails and changes nothing.
use vstd::prelude::*;
use crate::currency::{balance_after_payment, Config};
use crate::order_book::OrderBook;
use crate::registry::TokenRegistry;
use crate::types::{swap_removed, AccountId, Balance, Error, Event, Order, OrderId, TokenId};

verus! {

/// The marketplace's whole state: who owns which token, and which tokens
/// are offered at what price.
pub struct Pallet {
    registry: TokenRegistry,
    book: OrderBook,
}

impl Pallet {
    /// Who owns which token.
    pub closed spec fn registry(&self) -> TokenRegistry {
        self.registry
    }

    /// Which tokens are offered, at what price.
    pub closed spec fn book(&self) -> OrderBook {
        self.book
    }

    /// The identifier the next mint will issue.
    pub open spec fn next_id(&self) -> nat {
        self.registry().next_id()
    }

    /// The owner of token `t` and its position in the owner's array.
    pub open spec fn owner(&self, t: TokenId) -> Option<(AccountId, u64)> {
        self.registry().owner(t)
    }

    /// The compact array of tokens owned by `a`.
    pub open spec fn tokens(&self, a: AccountId) -> Seq<TokenId> {
        self.registry().tokens(a)
    }

    /// The active sell orders, by position.
    pub open spec fn orders(&self) -> Seq<Order> {
        self.book().orders()
    }

    /// The sale index: each listed token's order position.
    pub open spec fn sales(&self) -> Map<TokenId, OrderId> {
        self.book().sales()
    }

    /// Both components are well formed and only issued tokens are listed.
    pub open spec fn wf(&self) -> bool {
        &&& self.registry().wf()
        &&& self.book().wf()
        &&& forall|t: TokenId| #[trigger] self.sales().contains_key(t) ==> (t as nat) < self.next_id()
    }

    /// The price of listed token `t`.
    pub open spec fn price_of(&self, t: TokenId) -> Balance {
        self.orders()[self.sales()[t] as int].sell_price
    }

    /// The owner of issued token `t`.
    pub open spec fn owner_account(&self, t: TokenId) -> AccountId {
        self.owner(t).unwrap().0
    }

    /// Why Mint by `caller` fails, if it does.
    pub open spec fn mint_error(&self, caller: AccountId) -> Option<Error> {
        if self.next_id() == u64::MAX || self.tokens(caller).len() == u64::MAX {
            Some(Error::StorageOverflow)
        } else {
            None
        }
    }

    /// Why Sell of `t` by `caller` fails, if it does.
    pub open spec fn sell_error(&self, caller: AccountId, t: TokenId) -> Option<Error> {
        match self.owner(t) {
            None => Some(Error::InvalidTokenID),
            Some((o, _)) => if o != caller {
                Some(Error::NotTokenOwner)
            } else if self.sales().contains_key(t) {
                Some(Error::TokenAlreadyOnSale)
            } else if self.orders().len() == u128::MAX {
                Some(Error::StorageOverflow)
            } else {
                None
            },
        }
    }

    /// Why CancelOrder of `t` by `caller` fails, if it does.
    pub open spec fn cancel_error(&self, caller: AccountId, t: TokenId) -> Option<Error> {
        match self.owner(t) {
            None => Some(Error::InvalidTokenID),
            Some((o, _)) => if o != caller {
                Some(Error::NotTokenOwner)
            } else if !self.sales().contains_key(t) {
                Some(Error::TokenNotOnSale)
            } else {
                None
            },
        }
    }

    /// Why Buy of `t` by `buyer`, who can spend `funds`, fails before any
    /// payment is attempted, if it does.
    pub open spec fn buy_error(&self, buyer: AccountId, t: TokenId, funds: nat) -> Option<Error> {
        if !self.sales().contains_key(t) {
            Some(Error::TokenNotOnSale)
        } else if funds < self.price_of(t) {
            Some(Error::NotEnoughBalance)
        } else if buyer != self.owner_account(t) && self.tokens(buyer).len() == u64::MAX {
            Some(Error::StorageOverflow)
        } else {
            None
        }
    }

    /// Why the purchase of `t` by `buyer` fails once the ledger has answered
    /// `paid`, if it does.
    pub open spec fn purchase_error(&self, buyer: AccountId, t: TokenId, paid: bool) -> Option<
        Error,
    > {
        if !self.sales().contains_key(t) {
            Some(Error::TokenNotOnSale)
        } else if buyer != self.owner_account(t) && self.tokens(buyer).len() == u64::MAX {
            Some(Error::StorageOverflow)
        } else if !paid {
            Some(Error::TransferFailed)
        } else {
            None
        }
    }

    /// `after` is `self` once `caller` has minted token `t`.
    pub open spec fn minted(&self, after: Pallet, caller: AccountId, t: TokenId) -> bool {
        &&& t == self.next_id()
        &&& after.next_id() == self.next_id() + 1
        &&& after.tokens(caller) == self.tokens(caller).push(t)
        &&& forall|a: AccountId| a != caller ==> #[trigger] after.tokens(a) == self.tokens(a)
        &&& after.book() == self.book()
    }

    /// `after` is `self` once token `t` has been listed at `price`.
    pub open spec fn listed(&self, after: Pallet, t: TokenId, price: Balance) -> bool {
        &&& after.registry() == self.registry()
        &&& after.orders() == self.orders().push(Order { token_id: t, sell_price: price })
        &&& after.sales() == self.sales().insert(t, self.orders().len() as u128)
    }

    /// `after` is `self` once listed token `t`'s order has been removed.
    pub open spec fn delisted(&self, after: Pallet, t: TokenId) -> bool {
        let i = self.sales()[t] as int;
        &&& after.orders() == swap_removed(self.orders(), i)
        &&& after.sales() == self.book().sales_after_delist(i)
    }

    /// `after` is `self` once listed token `t` has been sold to `buyer`.
    pub open spec fn sold(&self, after: Pallet, buyer: AccountId, t: TokenId) -> bool {
        &&& self.delisted(after, t)
        &&& after.next_id() == self.next_id()
        &&& forall|a: AccountId| #[trigger]
            after.tokens(a) == self.registry().tokens_after_transfer(t, buyer, a)
    }

    /// An empty marketplace: no token, no order.
    pub fn new() -> (r: Self)
        ensures
            r.wf(),
            r.next_id() == 0,
            forall|a: AccountId| #[trigger] r.tokens(a) == Seq::<TokenId>::empty(),
            r.orders() == Seq::<Order>::empty(),
            r.sales() == Map::<TokenId, OrderId>::empty(),
    {
        Pallet { registry: TokenRegistry::new(), book: OrderBook::new() }
    }

    /// Issues the next token to `caller`.
    pub fn mint(&mut self, caller: AccountId) -> (r: Result<Event, Error>)
        requires
            old(self).wf(),
        ensures
            final(self).wf(),
            match old(self).mint_error(caller) {
                Some(e) => r == Err::<Event, Error>(e) && *final(self) == *old(self),
                None => {
                    let t = old(self).next_id() as u64;
                    &&& r == Ok::<Event, Error>(Event::NFTMinted(t, caller))
                    &&& old(self).minted(*final(self), caller, t)
                    &&& final(self).owner(t) == Some(
                        (caller, old(self).tokens(caller).len() as u64),
                    )
                },
            },
    {
        match self.registry.mint(caller) {
            Ok(t) => {
                assert forall|u: TokenId| #[trigger] self.sales().contains_key(u) implies (u as nat)
                    < self.next_id() by {
                    assert(old(self).sales().contains_key(u));
                }
                Ok(Event::NFTMinted(t, caller))
            },
            Err(e) => Err(e),
        }
    }

    /// Offers `caller`'s token `t` for sale at `price`.
    pub fn sell(&mut self, caller: AccountId, t: TokenId, price: Balance) -> (r: Result<
        Event,
        Error,
    >)
        requires
            old(self).wf(),
        ensures
            final(self).wf(),
            match old(self).sell_error(caller, t) {
                Some(e) => r == Err::<Event, Error>(e) && *final(self) == *old(self),
                None => {
                    &&& r == Ok::<Event, Error>(Event::SellOrderCreated(t, price))
                    &&& old(self).listed(*final(self), t, price)
                },
            },
    {
        let (owner, _) = match self.registry.owner_of(t) {
            Ok(x) => x,
            Err(e) => return Err(e),
        };
        if owner != caller {
            return Err(Error::NotTokenOwner);
        }
        match self.book.list(t, price) {
            Ok(_) => {
                assert forall|u: TokenId| #[trigger] self.sales().contains_key(u) implies (u as nat)
                    < self.next_id() by {
                    if u != t {
                        assert(old(self).sales().contains_key(u));
                    }
                }
                Ok(Event::SellOrderCreated(t, price))
            },
            Err(e) => Err(e),
        }
    }

    /// Withdraws the order on `caller`'s token `t`.
    pub fn cancel_order(&mut self, caller: AccountId, t: TokenId) -> (r: Result<Event, Error>)
        requires
            old(self).wf(),
        ensures
            final(self).wf(),
            match old(self).cancel_error(caller, t) {
                Some(e) => r == Err::<Event, Error>(e) && *final(self) == *old(self),
                None => {
                    &&& r == Ok::<Event, Error>(Event::CancelledOrder(t))
                    &&& final(self).registry() == old(self).registry()
                    &&& old(self).delisted(*final(self), t)
                },
            },
    {
        let (owner, _) = match self.registry.owner_of(t) {
            Ok(x) => x,
            Err(e) => return Err(e),
        };
        if owner != caller {
            return Err(Error::NotTokenOwner);
        }
        let i = match self.book.order_of(t) {
            Ok(i) => i,
            Err(e) => return Err(e),
        };
        match self.book.delist(i) {
            Ok(_) => {},
            Err(e) => return Err(e),
        }
        proof {
            self.lemma_delist_keeps_listed_issued(*old(self), i as int);
        }
        Ok(Event::CancelledOrder(t))
    }

    /// `buyer` buys listed token `t` at its price, paying its owner through
    /// `currency`. All registry checks come before the payment; once the
    /// payment is made the order is removed and the token changes hands.
    /// When the ledger refuses the payment nothing changes.
    pub fn buy<C: Config>(&mut self, currency: &mut C, buyer: AccountId, t: TokenId) -> (r: Result<
        Event,
        Error,
    >)
        requires
            old(self).wf(),
        ensures
            final(self).wf(),
            match old(self).buy_error(buyer, t, old(currency).balance_of(buyer)) {
                Some(e) => {
                    &&& r == Err::<Event, Error>(e)
                    &&& *final(self) == *old(self)
                    &&& *final(currency) == *old(currency)
                },
                None => {
                    let seller = old(self).owner_account(t);
                    let price = old(self).price_of(t);
                    match r {
                        Ok(ev) => {
                            &&& ev == Event::NFTSold(buyer, seller, price)
                            &&& old(self).sold(*final(self), buyer, t)
                            &&& forall|a: AccountId| #[trigger]
                                final(currency).balance_of(a) == balance_after_payment(
                                    old(currency).balance_of(a),
                                    a,
                                    buyer,
                                    seller,
                                    price,
                                )
                        },
                        Err(e) => {
                            &&& e == Error::TransferFailed
                            &&& *final(self) == *old(self)
                            &&& forall|a: AccountId| #[trigger]
                                final(currency).balance_of(a) == old(currency).balance_of(a)
                        },
                    }
                },
            },
    {
        let i = match self.book.order_of(t) {
            Ok(i) => i,
            Err(e) => return Err(e),
        };
        let (seller, _) = match self.registry.owner_of(t) {
            Ok(x) => x,
            Err(e) => return Err(e),
        };
        let price = match self.book.order_at(i) {
            Some(order) => order.sell_price,
            None => return Err(Error::SellOrderNotFound),
        };
        if currency.free_balance(buyer) < price {
            return Err(Error::NotEnoughBalance);
        }
        if buyer != seller && self.registry.count_of(buyer) == u64::MAX {
            return Err(Error::StorageOverflow);
        }
        let paid = currency.transfer(buyer, seller, price);
        self.complete_purchase(buyer, t, paid)
    }

    /// Finishes `buyer`'s purchase of listed token `t` once the ledger has
    /// answered: `paid` tells whether the payment to the owner went through.
    /// Only a paid purchase removes the order and hands the token over.
    pub fn complete_purchase(&mut self, buyer: AccountId, t: TokenId, paid: bool) -> (r: Result<
        Event,
        Error,
    >)
        requires
            old(self).wf(),
        ensures
            final(self).wf(),
            match old(self).purchase_error(buyer, t, paid) {
                Some(e) => r == Err::<Event, Error>(e) && *final(self) == *old(self),
                None => {
                    &&& r == Ok::<Event, Error>(
                        Event::NFTSold(buyer, old(self).owner_account(t), old(self).price_of(t)),
                    )
                    &&& old(self).sold(*final(self), buyer, t)
                },
            },
    {
        let i = match self.book.order_of(t) {
            Ok(i) => i,
            Err(e) => return Err(e),
        };
        let (seller, _) = match self.registry.owner_of(t) {
            Ok(x) => x,
            Err(e) => return Err(e),
        };
        let price = match self.book.order_at(i) {
            Some(order) => order.sell_price,
            None => return Err(Error::SellOrderNotFound),
        };
        if buyer != seller && self.registry.count_of(buyer) == u64::MAX {
            return Err(Error::StorageOverflow);
        }
        if !paid {
            return Err(Error::TransferFailed);
        }
        match self.book.delist(i) {
            Ok(_) => {},
            Err(e) => return Err(e),
        }
        proof {
            self.lemma_delist_keeps_listed_issued(*old(self), i as int);
        }
        match self.registry.transfer(t, buyer) {
            Ok(_) => {},
            Err(e) => return Err(e),
        }
        Ok(Event::NFTSold(buyer, seller, price))
    }

    /// The identifier the next mint will issue.
    pub fn get_next_token_id(&self) -> (r: TokenId)
        ensures
            r == self.next_id(),
    {
        self.registry.next_token_id()
    }

    /// The owner of token `t` and its position in the owner's array.
    pub fn get_nft_details(&self, t: TokenId) -> (r: Option<(AccountId, u64)>)
        requires
            self.wf(),
        ensures
            r == self.owner(t),
    {
        match self.registry.owner_of(t) {
            Ok(x) => Some(x),
            Err(_) => None,
        }
    }

    /// The number of active sell orders.
    pub fn get_number_of_sell_orders(&self) -> (r: u128)
        ensures
            r == self.orders().len(),
    {
        self.book.order_count()
    }

    /// The sell order at position `i`.
    pub fn get_sell_order(&self, i: OrderId) -> (r: Option<Order>)
        ensures
            r == (if (i as int) < self.orders().len() {
                Some(self.orders()[i as int])
            } else {
                None
            }),
    {
        self.book.order_at(i)
    }

    /// The position of token `t`'s sell order, if it is on sale.
    pub fn is_onsale(&self, t: TokenId) -> (r: Option<OrderId>)
        ensures
            r == (if self.sales().contains_key(t) {
                Some(self.sales()[t])
            } else {
                None
            }),
    {
        match self.book.order_of(t) {
            Ok(i) => Some(i),
            Err(_) => None,
        }
    }

    /// How many tokens account `a` owns.
    pub fn get_number_of_nfts_owned(&self, a: AccountId) -> (r: u64)
        requires
            self.wf(),
        ensures
            r == self.tokens(a).len(),
    {
        self.registry.count_of(a)
    }

    /// The token at position `p` of account `a`'s array.
    pub fn get_token_ids_of_owned_nfts(&self, a: AccountId, p: u64) -> (r: Option<TokenId>)
        requires
            self.wf(),
        ensures
            r == (if (p as int) < self.tokens(a).len() {
                Some(self.tokens(a)[p as int])
            } else {
                None
            }),
    {
        self.registry.token_at(a, p)
    }

    /// After removing order `i` of `pre`, every listed token is still issued.
    proof fn lemma_delist_keeps_listed_issued(&self, pre: Pallet, i: int)
        requires
            pre.wf(),
            0 <= i < pre.orders().len(),
            self.sales() == pre.book().sales_after_delist(i),
            self.next_id() == pre.next_id(),
        ensures
            forall|t: TokenId| #[trigger] self.sales().contains_key(t) ==> (t as nat) < self.next_id(),
    {
        let last = pre.orders().len() - 1;
        let moved = pre.orders()[last].token_id;
        assert(pre.sales().contains_key(moved));
        assert forall|t: TokenId| #[trigger] self.sales().contains_key(t) implies (t as nat)
            < self.next_id() by {
            if t != moved {
                assert(pre.sales().contains_key(t));
            }
        }
    }
}

} // verus!
