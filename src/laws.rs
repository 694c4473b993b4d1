//! Properties of the marketplace that hold across calls.
use vstd::prelude::*;
use crate::pallet::Pallet;
use crate::types::{AccountId, Error, TokenId};

verus! {

/// Between calls, each account's token array is gap-free: positions
/// `0..count` hold exactly the tokens the account owns, each once, and each
/// token's ownership record names the account and the slot it sits in.
pub proof fn owner_tokens_compact(m: Pallet, a: AccountId)
    requires
        m.wf(),
    ensures
        forall|p: int|
            #![trigger m.tokens(a)[p]]
            0 <= p < m.tokens(a).len() ==> m.owner(m.tokens(a)[p]) == Some((a, p as u64)),
        forall|t: TokenId|
            #![trigger m.owner(t)]
            m.owner(t) is Some && m.owner(t).unwrap().0 == a ==> (m.owner(t).unwrap().1 as int)
                < m.tokens(a).len() && m.tokens(a)[m.owner(t).unwrap().1 as int] == t,
        m.tokens(a).no_duplicates(),
        m.tokens(a).len() <= u64::MAX,
{
    let r = m.registry();
    assert forall|t: TokenId|
        #![trigger m.owner(t)]
        m.owner(t) is Some && m.owner(t).unwrap().0 == a implies (m.owner(t).unwrap().1 as int)
            < m.tokens(a).len() && m.tokens(a)[m.owner(t).unwrap().1 as int] == t by {
        assert(r.points_home(t));
    }
    assert forall|i: int, j: int|
        0 <= i < m.tokens(a).len() && 0 <= j < m.tokens(a).len() && i != j implies m.tokens(a)[i]
        != m.tokens(a)[j] by {
        assert(m.owner(m.tokens(a)[i]) == Some((a, i as u64)));
        assert(m.owner(m.tokens(a)[j]) == Some((a, j as u64)));
    }
}

/// Between calls, the order book is gap-free and the sale index is its
/// exact reverse: `sales[t] == i` exactly when the order at `i` is for `t`.
pub proof fn order_book_compact(m: Pallet, t: TokenId, i: int)
    requires
        m.wf(),
    ensures
        (m.sales().contains_key(t) && m.sales()[t] as int == i) <==> (0 <= i < m.orders().len()
            && m.orders()[i].token_id == t),
{
    if 0 <= i < m.orders().len() && m.orders()[i].token_id == t {
        assert(m.sales()[m.orders()[i].token_id] == i as u128);
    }
}

/// Right after `caller` mints a token, the token's owner is `caller`, at the
/// position equal to the count `caller` had before.
pub proof fn mint_then_owner(before: Pallet, after: Pallet, caller: AccountId, t: TokenId)
    requires
        before.wf(),
        after.wf(),
        before.minted(after, caller, t),
    ensures
        after.owner(t) == Some((caller, before.tokens(caller).len() as u64)),
{
    let p = before.tokens(caller).len() as int;
    assert(after.tokens(caller)[p] == t);
}

/// Once the order on a token has been cancelled, cancelling it again fails
/// with `TokenNotOnSale` (and a failed call changes nothing).
pub proof fn cancel_twice(before: Pallet, after: Pallet, caller: AccountId, t: TokenId)
    requires
        before.wf(),
        before.cancel_error(caller, t) is None,
        after.registry() == before.registry(),
        before.delisted(after, t),
    ensures
        after.cancel_error(caller, t) == Some(Error::TokenNotOnSale),
{
    assert(!after.sales().contains_key(t));
}

/// Removing the order at position `i` of a book of size `n`, where
/// `i < n - 1`, moves the last order into position `i`, points the sale
/// index of its token at `i`, drops the removed token from the index, and
/// leaves `n - 1` orders.
pub proof fn swap_delete_relocates(before: Pallet, after: Pallet, t: TokenId)
    requires
        before.wf(),
        before.sales().contains_key(t),
        (before.sales()[t] as int) < before.orders().len() - 1,
        before.delisted(after, t),
    ensures
        after.orders().len() == before.orders().len() - 1,
        after.orders()[before.sales()[t] as int] == before.orders().last(),
        after.sales().contains_key(before.orders().last().token_id),
        after.sales()[before.orders().last().token_id] == before.sales()[t],
        !after.sales().contains_key(t),
        forall|j: int|
            0 <= j < after.orders().len() && j != before.sales()[t] as int ==> #[trigger]
                after.orders()[j] == before.orders()[j],
{
    let i = before.sales()[t] as int;
    let last = before.orders().len() - 1;
    assert(before.sales()[before.orders()[last].token_id] == last as u128);
    assert(before.orders()[i].token_id == t);
}

} // verus!
