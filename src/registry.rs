//! The token registry: issues token identifiers, records each token's owner
//! and position, and keeps every account's compact array of owned tokens.
use vstd::prelude::*;
use vstd::hash_map::HashMapWithView;
use crate::types::{swap_removed, AccountId, Error, TokenId};

verus! {

broadcast use vstd::std_specs::hash::group_hash_axioms;

/// Ownership of tokens, with a forward index (account to tokens) and a
/// reverse index (token to account and position) kept in lock-step.
pub struct TokenRegistry {
    next_token_id: u64,
    /// Indexed by token identifier: the owner and the token's position in
    /// the owner's array.
    token_owner: Vec<(AccountId, u64)>,
    /// Each account's compact array of owned tokens.
    owner_tokens: HashMapWithView<AccountId, Vec<TokenId>>,
}

impl TokenRegistry {
    /// The identifier the next mint will issue; also the number of tokens.
    pub closed spec fn next_id(&self) -> nat {
        self.next_token_id as nat
    }

    /// The owner of token `t` and its position in the owner's array.
    pub closed spec fn owner(&self, t: TokenId) -> Option<(AccountId, u64)> {
        if (t as int) < self.token_owner@.len() {
            Some(self.token_owner@[t as int])
        } else {
            None
        }
    }

    /// The compact array of tokens owned by `a`.
    pub closed spec fn tokens(&self, a: AccountId) -> Seq<TokenId> {
        if self.owner_tokens@.contains_key(a) {
            self.owner_tokens@[a]@
        } else {
            Seq::empty()
        }
    }

    /// The record array has one entry per issued identifier.
    pub closed spec fn layout(&self) -> bool {
        self.token_owner@.len() == self.next_token_id
    }

    /// Exactly the identifiers below `next_id` have an ownership record.
    pub open spec fn issued_exactly(&self) -> bool {
        forall|t: TokenId| #[trigger] self.owner(t).is_some() <==> (t as nat) < self.next_id()
    }

    /// Token `t` sits in its owner's array at the position its record gives.
    pub open spec fn points_home(&self, t: TokenId) -> bool {
        match self.owner(t) {
            Some((a, p)) => (p as int) < self.tokens(a).len() && self.tokens(a)[p as int] == t,
            None => true,
        }
    }

    /// Every occupied slot holds a token whose record points back to it.
    pub open spec fn slots_home(&self) -> bool {
        forall|a: AccountId, p: int|
            #![trigger self.tokens(a)[p]]
            0 <= p < self.tokens(a).len() ==> self.owner(self.tokens(a)[p]) == Some(
                (a, p as u64),
            )
    }

    /// Every account's token count fits its counter.
    pub open spec fn counts_fit(&self) -> bool {
        forall|a: AccountId| #[trigger] self.tokens(a).len() <= u64::MAX
    }

    pub open spec fn wf(&self) -> bool {
        &&& self.layout()
        &&& self.issued_exactly()
        &&& forall|t: TokenId| #[trigger] self.points_home(t)
        &&& self.slots_home()
        &&& self.counts_fit()
    }

    /// Well formed, except that token `t` has been taken out of its owner's
    /// array and sits in none.
    pub open spec fn detached(&self, t: TokenId) -> bool {
        &&& self.layout()
        &&& self.issued_exactly()
        &&& (t as nat) < self.next_id()
        &&& forall|u: TokenId| u != t ==> #[trigger] self.points_home(u)
        &&& self.slots_home()
        &&& forall|a: AccountId, p: int|
            #![trigger self.tokens(a)[p]]
            0 <= p < self.tokens(a).len() ==> self.tokens(a)[p] != t
        &&& self.counts_fit()
    }

    /// The array of account `a` once token `t` has moved to `to`: removed
    /// from its owner's array by swap-with-last, then appended to `to`'s.
    pub open spec fn tokens_after_transfer(&self, t: TokenId, to: AccountId, a: AccountId) -> Seq<
        TokenId,
    > {
        let (o, p) = self.owner(t).unwrap();
        let rest = swap_removed(self.tokens(o), p as int);
        if a == to {
            (if to == o {
                rest
            } else {
                self.tokens(to)
            }).push(t)
        } else if a == o {
            rest
        } else {
            self.tokens(a)
        }
    }

    /// An empty registry.
    pub fn new() -> (r: Self)
        ensures
            r.wf(),
            r.next_id() == 0,
            forall|a: AccountId| #[trigger] r.tokens(a) == Seq::<TokenId>::empty(),
    {
        TokenRegistry {
            next_token_id: 0,
            token_owner: Vec::new(),
            owner_tokens: HashMapWithView::new(),
        }
    }

    /// The identifier the next mint will issue.
    pub fn next_token_id(&self) -> (r: u64)
        ensures
            r == self.next_id(),
    {
        self.next_token_id
    }

    /// The owner of token `t` and its position in the owner's array.
    pub fn owner_of(&self, t: TokenId) -> (r: Result<(AccountId, u64), Error>)
        requires
            self.wf(),
        ensures
            match self.owner(t) {
                Some(x) => r == Ok::<(AccountId, u64), Error>(x),
                None => r == Err::<(AccountId, u64), Error>(Error::InvalidTokenID),
            },
    {
        if t < self.next_token_id {
            let n = self.token_owner.len();
            assert(n == self.next_token_id);
            Ok(self.token_owner[t as usize])
        } else {
            Err(Error::InvalidTokenID)
        }
    }

    /// How many tokens account `a` owns.
    pub fn count_of(&self, a: AccountId) -> (r: u64)
        requires
            self.wf(),
        ensures
            r == self.tokens(a).len(),
    {
        match self.owner_tokens.get(&a) {
            Some(v) => {
                assert(self.tokens(a).len() <= u64::MAX);
                v.len() as u64
            },
            None => 0,
        }
    }

    /// The token at position `p` of account `a`'s array.
    pub fn token_at(&self, a: AccountId, p: u64) -> (r: Option<TokenId>)
        requires
            self.wf(),
        ensures
            r == (if (p as int) < self.tokens(a).len() {
                Some(self.tokens(a)[p as int])
            } else {
                None
            }),
    {
        match self.owner_tokens.get(&a) {
            Some(v) => {
                assert(self.tokens(a).len() <= u64::MAX);
                if p < v.len() as u64 {
                    Some(v[p as usize])
                } else {
                    None
                }
            },
            None => None,
        }
    }
    /// Appends detached token `t` to `owner`'s array and records its new
    /// owner and position.
    fn append(&mut self, owner: AccountId, t: TokenId) -> (pos: u64)
        requires
            old(self).detached(t),
            old(self).tokens(owner).len() < u64::MAX,
        ensures
            final(self).wf(),
            pos == old(self).tokens(owner).len(),
            final(self).next_id() == old(self).next_id(),
            final(self).tokens(owner) == old(self).tokens(owner).push(t),
            forall|a: AccountId| a != owner ==> #[trigger] final(self).tokens(a) == old(self).tokens(a),
            final(self).owner(t) == Some((owner, pos)),
            forall|u: TokenId| u != t ==> #[trigger] final(self).owner(u) == old(self).owner(u),
    {
        let mut v = match self.owner_tokens.remove(&owner) {
            Some(v) => v,
            None => Vec::new(),
        };
        assert(v@ == old(self).tokens(owner));
        let pos = v.len() as u64;
        v.push(t);
        self.owner_tokens.insert(owner, v);
        let n = self.token_owner.len();
        assert(n == self.next_token_id);
        self.token_owner.set(t as usize, (owner, pos));
        proof {
            let pre = *old(self);
            assert forall|u: TokenId| #[trigger] self.points_home(u) by {
                if u != t {
                    assert(pre.points_home(u));
                }
            }
            assert forall|a: AccountId, p: int|
                #![trigger self.tokens(a)[p]]
                0 <= p < self.tokens(a).len() implies self.owner(self.tokens(a)[p]) == Some(
                    (a, p as u64),
                ) by {
                if a != owner || p < pos {
                    assert(pre.tokens(a)[p] == self.tokens(a)[p]);
                }
            }
            assert forall|u: TokenId| #[trigger]
                self.owner(u).is_some() <==> (u as nat) < self.next_id() by {
                assert(pre.owner(u).is_some() <==> (u as nat) < pre.next_id());
            }
            assert forall|a: AccountId| #[trigger] self.tokens(a).len() <= u64::MAX by {
                assert(pre.tokens(a).len() <= u64::MAX);
            }
        }
        pos
    }

    /// Takes token `t` out of its owner's array: the owner's last token moves
    /// into the freed slot, its record follows it, and the array shrinks.
    fn remove(&mut self, t: TokenId)
        requires
            old(self).wf(),
            (t as nat) < old(self).next_id(),
        ensures
            final(self).detached(t),
            final(self).next_id() == old(self).next_id(),
            final(self).owner(t) == old(self).owner(t),
            ({
                let (o, p) = old(self).owner(t).unwrap();
                &&& final(self).tokens(o) == swap_removed(old(self).tokens(o), p as int)
                &&& forall|a: AccountId| a != o ==> #[trigger] final(self).tokens(a) == old(self).tokens(a)
            }),
    {
        let ghost pre = *old(self);
        let n = self.token_owner.len();
        assert(n == self.next_token_id);
        let (o, p) = self.token_owner[t as usize];
        assert(pre.owner(t) == Some((o, p)));
        assert(pre.points_home(t));
        let mut v = match self.owner_tokens.remove(&o) {
            Some(v) => v,
            None => Vec::new(),
        };
        assert(v@ == pre.tokens(o));
        let ghost last = v@.len() - 1;
        let ghost moved = v@[last];
        assert(pre.owner(moved) == Some((o, last as u64)));
        v.swap_remove(p as usize);
        if (p as usize) < v.len() {
            let m = v[p as usize];
            assert(m == moved);
            assert(pre.owner(m).is_some());
            self.token_owner.set(m as usize, (o, p));
        }
        self.owner_tokens.insert(o, v);
        proof {
            assert(self.tokens(o) == swap_removed(pre.tokens(o), p as int));
            assert forall|u: TokenId| u != t implies #[trigger] self.points_home(u) by {
                assert(pre.points_home(u));
                if u != moved {
                    assert(self.owner(u) == pre.owner(u));
                    let (a, q) = pre.owner(u).unwrap();
                    if pre.owner(u).is_some() && a == o {
                        assert(pre.tokens(o)[q as int] == u);
                        assert(q as int != last);
                        assert(q != p);
                    }
                }
            }
            assert forall|a: AccountId, q: int|
                #![trigger self.tokens(a)[q]]
                0 <= q < self.tokens(a).len() implies self.owner(self.tokens(a)[q]) == Some(
                    (a, q as u64),
                ) && self.tokens(a)[q] != t by {
                if a != o {
                    assert(self.tokens(a)[q] == pre.tokens(a)[q]);
                    assert(pre.owner(pre.tokens(a)[q]) == Some((a, q as u64)));
                } else if q != p {
                    assert(self.tokens(a)[q] == pre.tokens(a)[q]);
                    assert(pre.owner(pre.tokens(a)[q]) == Some((a, q as u64)));
                }
            }
            assert forall|u: TokenId| #[trigger]
                self.owner(u).is_some() <==> (u as nat) < self.next_id() by {
                assert(pre.owner(u).is_some() <==> (u as nat) < pre.next_id());
            }
            assert forall|a: AccountId| #[trigger] self.tokens(a).len() <= u64::MAX by {
                assert(pre.tokens(a).len() <= u64::MAX);
            }
        }
    }
    /// Issues the next identifier to `owner`, appending it to the owner's
    /// array.
    pub fn mint(&mut self, owner: AccountId) -> (r: Result<TokenId, Error>)
        requires
            old(self).wf(),
        ensures
            final(self).wf(),
            r.is_err() <==> (old(self).next_id() == u64::MAX || old(self).tokens(owner).len()
                == u64::MAX),
            match r {
                Ok(t) => {
                    &&& t == old(self).next_id()
                    &&& final(self).next_id() == old(self).next_id() + 1
                    &&& final(self).tokens(owner) == old(self).tokens(owner).push(t)
                    &&& forall|a: AccountId|
                        a != owner ==> #[trigger] final(self).tokens(a) == old(self).tokens(a)
                    &&& final(self).owner(t) == Some((owner, old(self).tokens(owner).len() as u64))
                    &&& forall|u: TokenId|
                        u != t ==> #[trigger] final(self).owner(u) == old(self).owner(u)
                },
                Err(e) => e == Error::StorageOverflow && *final(self) == *old(self),
            },
    {
        let t = self.next_token_id;
        let next = match t.checked_add(1) {
            Some(n) => n,
            None => return Err(Error::StorageOverflow),
        };
        if self.count_of(owner) == u64::MAX {
            return Err(Error::StorageOverflow);
        }
        let ghost pre = *self;
        self.token_owner.push((owner, 0));
        self.next_token_id = next;
        proof {
            assert forall|u: TokenId| u != t implies #[trigger] self.points_home(u) by {
                assert(pre.points_home(u));
                if (u as nat) < pre.next_id() {
                    assert(self.owner(u) == pre.owner(u));
                }
            }
            assert forall|a: AccountId, q: int|
                #![trigger self.tokens(a)[q]]
                0 <= q < self.tokens(a).len() implies self.owner(self.tokens(a)[q]) == Some(
                    (a, q as u64),
                ) && self.tokens(a)[q] != t by {
                assert(pre.owner(pre.tokens(a)[q]) == Some((a, q as u64)));
                assert(pre.owner(pre.tokens(a)[q]).is_some());
            }
            assert forall|u: TokenId| #[trigger]
                self.owner(u).is_some() <==> (u as nat) < self.next_id() by {
                assert(pre.owner(u).is_some() <==> (u as nat) < pre.next_id());
            }
            assert forall|a: AccountId| #[trigger] self.tokens(a).len() <= u64::MAX by {
                assert(pre.tokens(a).len() <= u64::MAX);
            }
            assert(self.layout());
            assert(self.slots_home());
        }
        self.append(owner, t);
        Ok(t)
    }

    /// Moves token `t` from its owner to `to`: swap-removed from the owner's
    /// array, then appended to `to`'s. Fails only when `to`'s count would
    /// overflow, and then changes nothing.
    pub fn transfer(&mut self, t: TokenId, to: AccountId) -> (r: Result<(), Error>)
        requires
            old(self).wf(),
            (t as nat) < old(self).next_id(),
        ensures
            final(self).wf(),
            r.is_err() <==> (to != old(self).owner(t).unwrap().0 && old(self).tokens(to).len()
                == u64::MAX),
            match r {
                Ok(_) => {
                    &&& final(self).next_id() == old(self).next_id()
                    &&& forall|a: AccountId| #[trigger]
                        final(self).tokens(a) == old(self).tokens_after_transfer(t, to, a)
                    &&& final(self).owner(t) == Some(
                        (to, (final(self).tokens(to).len() - 1) as u64),
                    )
                },
                Err(e) => e == Error::StorageOverflow && *final(self) == *old(self),
            },
    {
        let ghost pre = *self;
        let n = self.token_owner.len();
        assert(n == self.next_token_id);
        let (o, p) = self.token_owner[t as usize];
        if to != o && self.count_of(to) == u64::MAX {
            return Err(Error::StorageOverflow);
        }
        assert(pre.points_home(t));
        self.remove(t);
        let ghost mid = *self;
        assert(mid.tokens(to).len() < u64::MAX);
        self.append(to, t);
        proof {
            assert forall|a: AccountId| #[trigger]
                self.tokens(a) == pre.tokens_after_transfer(t, to, a) by {
                if a != to && a != o {
                    assert(mid.tokens(a) == pre.tokens(a));
                }
            }
        }
        Ok(())
    }
}

} // verus!
