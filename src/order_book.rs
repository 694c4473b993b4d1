//! The order book: a compact array of active sell orders with a reverse
//! index from token to order position.
use vstd::prelude::*;
use vstd::hash_map::HashMapWithView;
use crate::types::{swap_removed, Balance, Error, Order, OrderId, TokenId};

verus! {

broadcast use vstd::std_specs::hash::group_hash_axioms;

/// Active sell orders, kept gap-free, with the sale index in lock-step.
pub struct OrderBook {
    orders: Vec<Order>,
    sale_index: HashMapWithView<TokenId, OrderId>,
}

impl OrderBook {
    /// The active orders, by position.
    pub closed spec fn orders(&self) -> Seq<Order> {
        self.orders@
    }

    /// The sale index: each listed token's order position.
    pub closed spec fn sales(&self) -> Map<TokenId, OrderId> {
        self.sale_index@
    }

    /// Each order is found through the sale index of its token, and each
    /// entry of the sale index names an order of that token.
    pub open spec fn wf(&self) -> bool {
        &&& self.orders().len() <= u128::MAX
        &&& forall|i: int|
            #![trigger self.orders()[i]]
            0 <= i < self.orders().len() ==> self.sales().contains_key(self.orders()[i].token_id)
                && self.sales()[self.orders()[i].token_id] == i as u128
        &&& forall|t: TokenId| #[trigger]
            self.sales().contains_key(t) ==> (self.sales()[t] as int) < self.orders().len()
                && self.orders()[self.sales()[t] as int].token_id == t
    }

    /// The sale index after removing the order at `i` by swap-with-last.
    pub open spec fn sales_after_delist(&self, i: int) -> Map<TokenId, OrderId> {
        let last = self.orders().len() - 1;
        (if i < last {
            self.sales().insert(self.orders()[last].token_id, i as u128)
        } else {
            self.sales()
        }).remove(self.orders()[i].token_id)
    }

    /// An empty order book.
    pub fn new() -> (r: Self)
        ensures
            r.wf(),
            r.orders() == Seq::<Order>::empty(),
            r.sales() == Map::<TokenId, OrderId>::empty(),
    {
        OrderBook { orders: Vec::new(), sale_index: HashMapWithView::new() }
    }

    /// The number of active orders.
    pub fn order_count(&self) -> (r: u128)
        ensures
            r == self.orders().len(),
    {
        self.orders.len() as u128
    }

    /// The order at position `i`.
    pub fn order_at(&self, i: OrderId) -> (r: Option<Order>)
        ensures
            r == (if (i as int) < self.orders().len() {
                Some(self.orders()[i as int])
            } else {
                None
            }),
    {
        if i < self.orders.len() as u128 {
            Some(self.orders[i as usize])
        } else {
            None
        }
    }

    /// The position of token `t`'s order.
    pub fn order_of(&self, t: TokenId) -> (r: Result<OrderId, Error>)
        ensures
            r == (if self.sales().contains_key(t) {
                Ok::<OrderId, Error>(self.sales()[t])
            } else {
                Err::<OrderId, Error>(Error::TokenNotOnSale)
            }),
    {
        match self.sale_index.get(&t) {
            Some(i) => Ok(*i),
            None => Err(Error::TokenNotOnSale),
        }
    }

    /// Appends an order for token `t` at `price` and records its position in
    /// the sale index.
    pub fn list(&mut self, t: TokenId, price: Balance) -> (r: Result<OrderId, Error>)
        requires
            old(self).wf(),
        ensures
            final(self).wf(),
            match r {
                Ok(i) => {
                    &&& !old(self).sales().contains_key(t)
                    &&& old(self).orders().len() < u128::MAX
                    &&& i == old(self).orders().len()
                    &&& final(self).orders() == old(self).orders().push(
                        Order { token_id: t, sell_price: price },
                    )
                    &&& final(self).sales() == old(self).sales().insert(t, i)
                },
                Err(e) => {
                    &&& e == (if old(self).sales().contains_key(t) {
                        Error::TokenAlreadyOnSale
                    } else {
                        Error::StorageOverflow
                    })
                    &&& old(self).sales().contains_key(t) || old(self).orders().len()
                        == u128::MAX
                    &&& *final(self) == *old(self)
                },
            },
    {
        if self.sale_index.contains_key(&t) {
            return Err(Error::TokenAlreadyOnSale);
        }
        let n = self.orders.len() as u128;
        if n.checked_add(1).is_none() {
            return Err(Error::StorageOverflow);
        }
        let ghost pre = *self;
        self.orders.push(Order { token_id: t, sell_price: price });
        self.sale_index.insert(t, n);
        proof {
            assert forall|i: int|
                #![trigger self.orders()[i]]
                0 <= i < self.orders().len() implies self.sales().contains_key(
                    self.orders()[i].token_id,
                ) && self.sales()[self.orders()[i].token_id] == i as u128 by {
                if i < n {
                    assert(self.orders()[i] == pre.orders()[i]);
                    assert(pre.sales().contains_key(pre.orders()[i].token_id));
                }
            }
            assert forall|u: TokenId| #[trigger]
                self.sales().contains_key(u) implies (self.sales()[u] as int) < self.orders().len()
                && self.orders()[self.sales()[u] as int].token_id == u by {
                if u != t {
                    assert(pre.sales().contains_key(u));
                }
            }
        }
        Ok(n)
    }

    /// Removes the order at position `i`: the last order moves into the
    /// freed slot and its sale-index entry follows it; the removed order's
    /// token leaves the sale index.
    pub fn delist(&mut self, i: OrderId) -> (r: Result<(), Error>)
        requires
            old(self).wf(),
        ensures
            final(self).wf(),
            match r {
                Ok(_) => {
                    &&& (i as int) < old(self).orders().len()
                    &&& final(self).orders() == swap_removed(old(self).orders(), i as int)
                    &&& final(self).sales() == old(self).sales_after_delist(i as int)
                },
                Err(e) => {
                    &&& e == (if old(self).orders().len() == 0 {
                        Error::NoSellOrdersFound
                    } else {
                        Error::SellOrderNotFound
                    })
                    &&& (i as int) >= old(self).orders().len()
                    &&& *final(self) == *old(self)
                },
            },
    {
        let n = self.orders.len();
        if n == 0 {
            return Err(Error::NoSellOrdersFound);
        }
        if i >= n as u128 {
            return Err(Error::SellOrderNotFound);
        }
        let ghost pre = *self;
        let ghost last = n - 1;
        let ghost moved = pre.orders()[last].token_id;
        let removed = self.orders.swap_remove(i as usize);
        if (i as usize) < self.orders.len() {
            let m = self.orders[i as usize].token_id;
            self.sale_index.insert(m, i);
        }
        self.sale_index.remove(&removed.token_id);
        proof {
            let gone = removed.token_id;
            assert(pre.sales()[gone] == i);
            assert forall|j: int|
                #![trigger self.orders()[j]]
                0 <= j < self.orders().len() implies self.sales().contains_key(
                    self.orders()[j].token_id,
                ) && self.sales()[self.orders()[j].token_id] == j as u128 by {
                if j != i {
                    assert(self.orders()[j] == pre.orders()[j]);
                    assert(pre.sales()[pre.orders()[j].token_id] == j as u128);
                }
            }
            assert forall|u: TokenId| #[trigger]
                self.sales().contains_key(u) implies (self.sales()[u] as int) < self.orders().len()
                && self.orders()[self.sales()[u] as int].token_id == u by {
                assert(pre.sales().contains_key(u));
                if u != moved {
                    assert(pre.sales()[u] != last);
                }
            }
            assert(self.sales() == pre.sales_after_delist(i as int));
        }
        Ok(())
    }
}

} // verus!
