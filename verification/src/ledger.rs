//! A model of the hosting runtime's account layer: balances in the native
//! currency's smallest unit, and atomic value transfer between parties.
//!
//! The runtime serializes all transactions, so one `Ledger` value passed by
//! `&mut` through an operation reproduces its semantics: a transfer either
//! happens in full or leaves every balance untouched.

use vstd::prelude::*;

verus! {

/// A party on the ledger.  The runtime addresses accounts by an opaque
/// cryptographic key; the logic only ever compares keys for equality, so a
/// plain integer carries everything the transitions read.
pub type Identity = u64;

/// Failures raised by the runtime layer itself, before or instead of a
/// program-level error: key allocation conflicts, underfunded transfers,
/// and signer/authority mismatches.
#[derive(Clone, Copy, PartialEq, Eq, Debug)]
pub enum RuntimeError {
    /// Create-if-absent found a record already allocated under the key.
    AccountAlreadyExists,
    /// The transfer source holds less than the requested amount.
    InsufficientFunds,
    /// The transaction signer does not match the record's stored authority.
    NotAuthorized,
}

/// One funded account.
#[derive(Clone, Copy, PartialEq, Eq, Debug)]
pub struct AccountEntry {
    pub id: Identity,
    pub balance: u64,
}

/// Balances, keyed by identity.  An identity with no entry holds balance 0;
/// crediting it allocates an entry.
pub struct Ledger {
    entries: Vec<AccountEntry>,
}

/// No identity appears twice in the entry list.
spec fn distinct_ids(s: Seq<AccountEntry>) -> bool {
    forall|i: int, j: int| 0 <= i < j < s.len() ==> s[i].id != s[j].id
}

/// The balance an entry list assigns to `id`: the balance of its entry, or 0
/// when no entry carries `id`.
spec fn entry_balance(s: Seq<AccountEntry>, id: Identity) -> u64
    decreases s.len(),
{
    if s.len() == 0 {
        0u64
    } else if s.last().id == id {
        s.last().balance
    } else {
        entry_balance(s.drop_last(), id)
    }
}

proof fn lemma_balance_absent(s: Seq<AccountEntry>, id: Identity)
    requires
        forall|i: int| 0 <= i < s.len() ==> s[i].id != id,
    ensures
        entry_balance(s, id) == 0,
    decreases s.len(),
{
    if s.len() > 0 {
        assert(s.last().id != id);
        lemma_balance_absent(s.drop_last(), id);
    }
}

proof fn lemma_balance_at(s: Seq<AccountEntry>, i: int)
    requires
        distinct_ids(s),
        0 <= i < s.len(),
    ensures
        entry_balance(s, s[i].id) == s[i].balance,
    decreases s.len(),
{
    if i == s.len() - 1 {
        assert(s.last() == s[i]);
    } else {
        assert(s.last().id != s[i].id);
        assert(distinct_ids(s.drop_last())) by {
            assert(forall|p: int, q: int|
                0 <= p < q < s.drop_last().len() ==> s.drop_last()[p].id != s.drop_last()[q].id);
        }
        assert(s.drop_last()[i] == s[i]);
        lemma_balance_at(s.drop_last(), i);
    }
}

proof fn lemma_balance_update(s: Seq<AccountEntry>, i: int, e: AccountEntry)
    requires
        distinct_ids(s),
        0 <= i < s.len(),
        e.id == s[i].id,
    ensures
        distinct_ids(s.update(i, e)),
        entry_balance(s.update(i, e), e.id) == e.balance,
        forall|x: Identity| x != e.id ==> entry_balance(s.update(i, e), x) == entry_balance(s, x),
    decreases s.len(),
{
    let s2 = s.update(i, e);
    assert forall|p: int, q: int| 0 <= p < q < s2.len() implies s2[p].id != s2[q].id by {
        assert(s[p].id != s[q].id);
    }
    if i == s.len() - 1 {
        assert(s2.last() == e);
        assert(s2.drop_last() =~= s.drop_last());
        assert(s.last().id == e.id);
        assert forall|x: Identity| x != e.id implies entry_balance(s2, x) == entry_balance(s, x) by {
            assert(entry_balance(s2, x) == entry_balance(s2.drop_last(), x));
            assert(entry_balance(s, x) == entry_balance(s.drop_last(), x));
        }
    } else {
        assert(s2.last() == s.last());
        assert(s2.drop_last() =~= s.drop_last().update(i, e));
        assert(distinct_ids(s.drop_last())) by {
            assert(forall|p: int, q: int|
                0 <= p < q < s.drop_last().len() ==> s.drop_last()[p].id != s.drop_last()[q].id);
        }
        assert(s.drop_last()[i] == s[i]);
        lemma_balance_update(s.drop_last(), i, e);
        assert(s.last().id != e.id);
        assert(entry_balance(s2, e.id) == entry_balance(s2.drop_last(), e.id));
        assert forall|x: Identity| x != e.id implies entry_balance(s2, x) == entry_balance(s, x) by {
            if s.last().id == x {
                assert(entry_balance(s2, x) == s.last().balance);
            } else {
                assert(entry_balance(s2, x) == entry_balance(s2.drop_last(), x));
                assert(entry_balance(s, x) == entry_balance(s.drop_last(), x));
            }
        }
    }
}

proof fn lemma_balance_push(s: Seq<AccountEntry>, e: AccountEntry)
    ensures
        entry_balance(s.push(e), e.id) == e.balance,
        forall|x: Identity| x != e.id ==> entry_balance(s.push(e), x) == entry_balance(s, x),
{
    let s2 = s.push(e);
    assert(s2.last() == e);
    assert(s2.drop_last() =~= s);
    assert forall|x: Identity| x != e.id implies entry_balance(s2, x) == entry_balance(s, x) by {
        assert(entry_balance(s2, x) == entry_balance(s2.drop_last(), x));
    }
}

/// What a completed transfer of `amount` from `from` to `to` did to the
/// balances: exactly that much moved, nobody else touched, and a
/// self-transfer moved nothing.
pub open spec fn paid(pre: Ledger, post: Ledger, from: Identity, to: Identity, amount: u64) -> bool {
    if from == to {
        post == pre
    } else {
        post.balance_of(from) == pre.balance_of(from) - amount && post.balance_of(to)
            == pre.balance_of(to) + amount && (forall|x: Identity|
            x != from && x != to ==> post.balance_of(x) == pre.balance_of(x))
    }
}

impl Ledger {
    /// Every identity has at most one entry, so `balance_of` is the one
    /// balance the ledger assigns to it.
    pub closed spec fn wf(self) -> bool {
        distinct_ids(self.entries@)
    }

    pub closed spec fn balance_of(self, id: Identity) -> u64 {
        entry_balance(self.entries@, id)
    }

    /// An empty ledger: every party starts at balance 0.
    pub fn new() -> (r: Ledger)
        ensures
            r.wf(),
            forall|id: Identity| r.balance_of(id) == 0,
    {
        let l = Ledger { entries: Vec::new() };
        proof {
            assert forall|id: Identity| l.balance_of(id) == 0 by {
                lemma_balance_absent(l.entries@, id);
            }
        }
        l
    }

    fn find_index(&self, id: Identity) -> (r: Option<usize>)
        ensures
            match r {
                Some(i) => i < self.entries@.len() && self.entries@[i as int].id == id,
                None => forall|i: int| 0 <= i < self.entries@.len() ==> self.entries@[i].id != id,
            },
    {
        let mut i: usize = 0;
        while i < self.entries.len()
            invariant
                i <= self.entries@.len(),
                forall|j: int| 0 <= j < i ==> self.entries@[j].id != id,
            decreases self.entries@.len() - i,
        {
            if self.entries[i].id == id {
                return Some(i);
            }
            i = i + 1;
        }
        None
    }

    /// The current balance of `id`.
    pub fn balance(&self, id: Identity) -> (r: u64)
        requires
            self.wf(),
        ensures
            r == self.balance_of(id),
    {
        match self.find_index(id) {
            Some(i) => {
                proof {
                    lemma_balance_at(self.entries@, i as int);
                }
                self.entries[i].balance
            },
            None => {
                proof {
                    lemma_balance_absent(self.entries@, id);
                }
                0
            },
        }
    }

    /// Adds `amount` to the balance of `id`, allocating the entry when
    /// absent.  This is how tests and callers endow accounts before a
    /// transfer; on the real runtime it corresponds to funds arriving from
    /// outside the modelled system.
    pub fn credit(&mut self, id: Identity, amount: u64)
        requires
            old(self).wf(),
            old(self).balance_of(id) + amount <= u64::MAX,
        ensures
            final(self).wf(),
            final(self).balance_of(id) == old(self).balance_of(id) + amount,
            forall|x: Identity| x != id ==> final(self).balance_of(x) == old(self).balance_of(x),
    {
        match self.find_index(id) {
            Some(i) => {
                proof {
                    lemma_balance_at(self.entries@, i as int);
                }
                let e = AccountEntry { id, balance: self.entries[i].balance + amount };
                proof {
                    lemma_balance_update(self.entries@, i as int, e);
                }
                self.entries[i] = e;
            },
            None => {
                let e = AccountEntry { id, balance: amount };
                proof {
                    lemma_balance_absent(self.entries@, id);
                    lemma_balance_push(self.entries@, e);
                }
                self.entries.push(e);
                assert(self.wf()) by {
                    assert(forall|j: int|
                        0 <= j < old(self).entries@.len() ==> old(self).entries@[j].id != id);
                }
            },
        }
    }

    fn debit(&mut self, id: Identity, amount: u64)
        requires
            old(self).wf(),
            old(self).balance_of(id) >= amount,
        ensures
            final(self).wf(),
            final(self).balance_of(id) == old(self).balance_of(id) - amount,
            forall|x: Identity| x != id ==> final(self).balance_of(x) == old(self).balance_of(x),
    {
        match self.find_index(id) {
            Some(i) => {
                proof {
                    lemma_balance_at(self.entries@, i as int);
                }
                let e = AccountEntry { id, balance: self.entries[i].balance - amount };
                proof {
                    lemma_balance_update(self.entries@, i as int, e);
                }
                self.entries[i] = e;
            },
            None => {
                proof {
                    lemma_balance_absent(self.entries@, id);
                }
            },
        }
    }

    /// Atomic value transfer: moves `amount` from `from` to `to`, or fails
    /// with `InsufficientFunds` and changes nothing.  A transfer from an
    /// account to itself is admitted and leaves every balance as it was.
    pub fn transfer(&mut self, from: Identity, to: Identity, amount: u64) -> (r: Result<
        (),
        RuntimeError,
    >)
        requires
            old(self).wf(),
            from != to ==> old(self).balance_of(to) + amount <= u64::MAX,
        ensures
            final(self).wf(),
            r is Ok <==> old(self).balance_of(from) >= amount,
            r is Err ==> *final(self) == *old(self) && r == Err::<(), RuntimeError>(
                RuntimeError::InsufficientFunds,
            ),
            (r is Ok && from != to) ==> final(self).balance_of(from) == old(self).balance_of(from)
                - amount && final(self).balance_of(to) == old(self).balance_of(to) + amount && (
            forall|x: Identity|
                x != from && x != to ==> final(self).balance_of(x) == old(self).balance_of(x)),
            (r is Ok && from == to) ==> *final(self) == *old(self),
            r is Ok ==> paid(*old(self), *final(self), from, to, amount),
    {
        let available = self.balance(from);
        if available < amount {
            return Err(RuntimeError::InsufficientFunds);
        }
        if from == to {
            return Ok(());
        }
        self.debit(from, amount);
        self.credit(to, amount);
        Ok(())
    }
}

} // verus!
