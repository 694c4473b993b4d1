use vstd::prelude::*;

verus! {

/// Identifier of a token; issued in increasing order and never reused.
pub type TokenId = u64;

/// Identifier of an account, as handed over by the caller's authentication.
pub type AccountId = u64;

/// An amount of the host ledger's currency.
pub type Balance = u128;

/// Position of a sell order in the order book.
pub type OrderId = u128;

/// An active offer to sell a token at a fixed price.
#[derive(Clone, Copy, Debug, PartialEq, Eq, Structural)]
pub struct Order {
    pub token_id: TokenId,
    pub sell_price: Balance,
}

/// What a successful call reports.
#[derive(Clone, Copy, Debug, PartialEq, Eq, Structural)]
pub enum Event {
    /// token, minter
    NFTMinted(TokenId, AccountId),
    /// token, price
    SellOrderCreated(TokenId, Balance),
    /// token
    CancelledOrder(TokenId),
    /// buyer, seller, price
    NFTSold(AccountId, AccountId, Balance),
}

/// Why a call was rejected. A rejected call changes nothing.
#[derive(Clone, Copy, Debug, PartialEq, Eq, Structural)]
pub enum Error {
    /// A counter would leave its integer range.
    StorageOverflow,
    /// The identifier about to be issued is already taken. Identifiers are
    /// positions in the registry's own array, so a well-formed registry never
    /// reports this.
    TokenIdAlreadyMinted,
    /// No token has this identifier.
    InvalidTokenID,
    /// The caller does not own the token.
    NotTokenOwner,
    /// The token already has an active order.
    TokenAlreadyOnSale,
    /// The token has no active order.
    TokenNotOnSale,
    /// The order position names no order.
    SellOrderNotFound,
    /// The order book is empty.
    NoSellOrdersFound,
    /// The buyer's spendable balance is below the price.
    NotEnoughBalance,
    /// The currency ledger refused the payment.
    TransferFailed,
}

/// A compact array after removing position `i`: the last element moves into
/// slot `i` and the array shrinks by one.
pub open spec fn swap_removed<A>(s: Seq<A>, i: int) -> Seq<A> {
    s.update(i, s.last()).drop_last()
}

} // verus!
