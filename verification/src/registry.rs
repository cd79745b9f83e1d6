//! The ticker registry: one identity record per ticker symbol, with
//! ownership, descriptive metadata, and marketplace (for-sale) state.
//!
//! Records are keyed by the ticker symbol.  The hosting runtime allocates a
//! record only if the key is free, which is what makes a ticker unique; the
//! [`Registry`] store reproduces that create-only-if-absent rule, and its
//! well-formedness predicate [`Registry::wf`] is the uniqueness invariant.

use vstd::prelude::*;
use vstd::string::StrSliceExecFns;
use crate::ledger::{paid, Identity, Ledger, RuntimeError};

verus! {

/// Fee moved from the registering owner to the fee recipient on every
/// registration: 0.1 of the major currency unit, in smallest units.
pub const REGISTRATION_FEE: u64 = 100_000_000;

/// Maximum length of a ticker symbol, in characters.
pub const MAX_TICKER_LEN: usize = 20;

/// Maximum length of the target URL, in characters.
pub const MAX_URL_LEN: usize = 200;

/// Maximum length of the description, in characters.
pub const MAX_DESCRIPTION_LEN: usize = 500;

/// One registered ticker identity.
pub struct TickerAccount {
    /// Identity of the current controller.
    pub owner: Identity,
    /// The symbol itself; immutable after creation.
    pub ticker: String,
    /// Where the ticker points; mutable by the owner.
    pub target_url: String,
    /// Free-form description; mutable by the owner.
    pub description: String,
    /// Optional associated contract reference; settable, never clearable.
    pub contract_address: Option<String>,
    /// Marketplace state: whether the record is listed.
    pub is_for_sale: bool,
    /// Asking price while listed, in smallest currency units.
    pub price: u64,
    /// Creation timestamp; immutable.
    pub created_at: i64,
}

/// Program-level failure reasons of the registry.  `NotAuthorized` and
/// `InsufficientRegistrationFee` belong to the declared error set although
/// the runtime layer reports those conditions itself (see
/// [`RuntimeError`]).
#[derive(Clone, Copy, PartialEq, Eq, Debug)]
pub enum ErrorCode {
    TickerTooLong,
    UrlTooLong,
    DescriptionTooLong,
    NotAuthorized,
    NotForSale,
    InsufficientRegistrationFee,
}

/// Everything a registry operation can fail with: an error of the program
/// itself, or one raised by the runtime layer before or during it.
#[derive(Clone, Copy, PartialEq, Eq, Debug)]
pub enum Failure {
    Program(ErrorCode),
    Runtime(RuntimeError),
}

/// The keyed store of ticker records.
pub struct Registry {
    accounts: Vec<TickerAccount>,
}

impl View for Registry {
    type V = Seq<TickerAccount>;

    closed spec fn view(&self) -> Seq<TickerAccount> {
        self.accounts@
    }
}

/// The record as it is first written: not for sale, price 0, stamped with
/// the creation time.
pub open spec fn new_ticker_account(
    owner: Identity,
    ticker: String,
    target_url: String,
    description: String,
    contract_address: Option<String>,
    now: i64,
) -> TickerAccount {
    TickerAccount {
        owner,
        ticker,
        target_url,
        description,
        contract_address,
        is_for_sale: false,
        price: 0u64,
        created_at: now,
    }
}

/// The record after an owner update: each field supplied replaces the
/// stored one, the rest stay; the contract address can only ever be set or
/// overwritten, never cleared.
pub open spec fn updated(
    r: TickerAccount,
    target_url: Option<String>,
    description: Option<String>,
    contract_address: Option<String>,
) -> TickerAccount {
    TickerAccount {
        owner: r.owner,
        ticker: r.ticker,
        target_url: match target_url {
            Some(u) => u,
            None => r.target_url,
        },
        description: match description {
            Some(d) => d,
            None => r.description,
        },
        contract_address: match contract_address {
            Some(c) => Some(c),
            None => r.contract_address,
        },
        is_for_sale: r.is_for_sale,
        price: r.price,
        created_at: r.created_at,
    }
}

/// The record after listing: for sale at the given price, everything else
/// untouched.  A price of 0 is accepted.
pub open spec fn listed(r: TickerAccount, price: u64) -> TickerAccount {
    TickerAccount {
        owner: r.owner,
        ticker: r.ticker,
        target_url: r.target_url,
        description: r.description,
        contract_address: r.contract_address,
        is_for_sale: true,
        price,
        created_at: r.created_at,
    }
}

/// The record after a successful purchase: owned by the buyer, delisted,
/// price reset.
pub open spec fn sold(r: TickerAccount, buyer: Identity) -> TickerAccount {
    TickerAccount {
        owner: buyer,
        ticker: r.ticker,
        target_url: r.target_url,
        description: r.description,
        contract_address: r.contract_address,
        is_for_sale: false,
        price: 0u64,
        created_at: r.created_at,
    }
}

/// The record after a cancelled sale: delisted, price reset, regardless of
/// whether it was listed.
pub open spec fn delisted(r: TickerAccount) -> TickerAccount {
    TickerAccount {
        owner: r.owner,
        ticker: r.ticker,
        target_url: r.target_url,
        description: r.description,
        contract_address: r.contract_address,
        is_for_sale: false,
        price: 0u64,
        created_at: r.created_at,
    }
}

impl Registry {
    /// The uniqueness invariant: no two records carry the same ticker.
    /// Every operation requires and preserves it.
    pub open spec fn wf(self) -> bool {
        forall|i: int, j: int|
            0 <= i < j < self@.len() ==> self@[i].ticker@ != self@[j].ticker@
    }

    pub open spec fn contains_ticker(self, t: Seq<char>) -> bool {
        exists|i: int| 0 <= i < self@.len() && self@[i].ticker@ == t
    }

    pub open spec fn index_of(self, t: Seq<char>) -> int {
        choose|i: int| 0 <= i < self@.len() && self@[i].ticker@ == t
    }

    /// The one record registered under `t` (meaningful when
    /// `contains_ticker(t)` holds in a well-formed registry).
    pub open spec fn record_for(self, t: Seq<char>) -> TickerAccount {
        self@[self.index_of(t)]
    }

    /// An empty registry.
    pub fn new() -> (r: Registry)
        ensures
            r.wf(),
            r@ == Seq::<TickerAccount>::empty(),
            forall|t: Seq<char>| !r.contains_ticker(t),
    {
        Registry { accounts: Vec::new() }
    }

    fn find(&self, ticker: &String) -> (r: Option<usize>)
        ensures
            match r {
                Some(i) => i < self@.len() && self@[i as int].ticker@ == ticker@,
                None => forall|i: int| 0 <= i < self@.len() ==> self@[i].ticker@ != ticker@,
            },
    {
        let mut i: usize = 0;
        while i < self.accounts.len()
            invariant
                i <= self@.len(),
                forall|j: int| 0 <= j < i ==> self@[j].ticker@ != ticker@,
            decreases self@.len() - i,
        {
            if self.accounts[i].ticker == *ticker {
                return Some(i);
            }
            i = i + 1;
        }
        None
    }

    /// Looks a ticker up, as the runtime does when it resolves the record a
    /// transaction names.
    pub fn get<'a>(&'a self, ticker: &String) -> (r: Option<&'a TickerAccount>)
        requires
            self.wf(),
        ensures
            match r {
                Some(rec) => self.contains_ticker(ticker@) && *rec == self.record_for(ticker@),
                None => !self.contains_ticker(ticker@),
            },
    {
        match self.find(ticker) {
            Some(i) => {
                proof {
                    lemma_record_at(*self, i as int);
                }
                Some(&self.accounts[i])
            },
            None => None,
        }
    }
}

/// Uniqueness of registration: in a well-formed registry two positions
/// holding the same ticker are the same position, so at most one record
/// exists per ticker at any time.
pub proof fn lemma_ticker_unique(reg: Registry, i: int, j: int)
    requires
        reg.wf(),
        0 <= i < reg@.len(),
        0 <= j < reg@.len(),
        reg@[i].ticker@ == reg@[j].ticker@,
    ensures
        i == j,
{
    if i < j {
        assert(reg@[i].ticker@ != reg@[j].ticker@);
    }
    if j < i {
        assert(reg@[j].ticker@ != reg@[i].ticker@);
    }
}

/// In a well-formed registry, position `i` is exactly where `index_of`
/// points for its own ticker.
pub proof fn lemma_record_at(reg: Registry, i: int)
    requires
        reg.wf(),
        0 <= i < reg@.len(),
    ensures
        reg.contains_ticker(reg@[i].ticker@),
        reg.index_of(reg@[i].ticker@) == i,
        reg.record_for(reg@[i].ticker@) == reg@[i],
{
    let t = reg@[i].ticker@;
    assert(reg.contains_ticker(t));
    let j = reg.index_of(t);
    assert(0 <= j < reg@.len() && reg@[j].ticker@ == t);
    lemma_ticker_unique(reg, i, j);
}

/// Replacing the record at `i` by one with the same ticker keeps the
/// registry well-formed and leaves every other ticker's record as it was.
proof fn lemma_update_frame(pre: Registry, post: Registry, i: int, rec: TickerAccount)
    requires
        pre.wf(),
        0 <= i < pre@.len(),
        rec.ticker@ == pre@[i].ticker@,
        post@ == pre@.update(i, rec),
    ensures
        post.wf(),
        post.contains_ticker(rec.ticker@),
        post.record_for(rec.ticker@) == rec,
        forall|t2: Seq<char>|
            t2 != rec.ticker@ ==> post.contains_ticker(t2) == pre.contains_ticker(t2),
        forall|t2: Seq<char>|
            t2 != rec.ticker@ && pre.contains_ticker(t2) ==> post.record_for(t2) == pre.record_for(
                t2,
            ),
{
    assert forall|p: int, q: int| 0 <= p < q < post@.len() implies post@[p].ticker@
        != post@[q].ticker@ by {
        assert(pre@[p].ticker@ != pre@[q].ticker@);
    }
    lemma_record_at(post, i);
    assert forall|t2: Seq<char>| t2 != rec.ticker@ implies post.contains_ticker(t2)
        == pre.contains_ticker(t2) by {
        if pre.contains_ticker(t2) {
            let j = pre.index_of(t2);
            assert(0 <= j < pre@.len() && pre@[j].ticker@ == t2);
            assert(post@[j].ticker@ == t2);
            assert(post.contains_ticker(t2));
        }
        if post.contains_ticker(t2) {
            let j = post.index_of(t2);
            assert(0 <= j < post@.len() && post@[j].ticker@ == t2);
            assert(pre@[j].ticker@ == t2);
            assert(pre.contains_ticker(t2));
        }
    }
    assert forall|t2: Seq<char>| t2 != rec.ticker@ && pre.contains_ticker(t2) implies
        post.record_for(t2) == pre.record_for(t2) by {
        let j = pre.index_of(t2);
        assert(0 <= j < pre@.len() && pre@[j].ticker@ == t2);
        assert(j != i);
        assert(post@[j] == pre@[j]);
        lemma_record_at(post, j);
        lemma_record_at(pre, j);
    }
}

/// Creates the registration for a fresh ticker: validates the field
/// lengths, moves the fixed registration fee from `owner` to
/// `fee_recipient`, and writes the record delisted with price 0.
///
/// The fee recipient is whoever the transaction names; nothing ties it to a
/// fixed, trusted address.
pub fn initialize_ticker(
    registry: &mut Registry,
    ledger: &mut Ledger,
    owner: Identity,
    fee_recipient: Identity,
    ticker: String,
    target_url: String,
    description: String,
    contract_address: Option<String>,
    now: i64,
) -> (r: Result<(), Failure>)
    requires
        old(registry).wf(),
        old(ledger).wf(),
        owner != fee_recipient ==> old(ledger).balance_of(fee_recipient) + REGISTRATION_FEE
            <= u64::MAX,
    ensures
        final(registry).wf(),
        final(ledger).wf(),
        r is Ok <==> (!old(registry).contains_ticker(ticker@) && ticker@.len() <= MAX_TICKER_LEN
            && target_url@.len() <= MAX_URL_LEN && description@.len() <= MAX_DESCRIPTION_LEN && old(
            ledger,
        ).balance_of(owner) >= REGISTRATION_FEE),
        r is Err ==> *final(registry) == *old(registry) && *final(ledger) == *old(ledger),
        old(registry).contains_ticker(ticker@) ==> r == Err::<(), Failure>(
            Failure::Runtime(RuntimeError::AccountAlreadyExists),
        ),
        !old(registry).contains_ticker(ticker@) && ticker@.len() > MAX_TICKER_LEN ==> r == Err::<
            (),
            Failure,
        >(Failure::Program(ErrorCode::TickerTooLong)),
        !old(registry).contains_ticker(ticker@) && ticker@.len() <= MAX_TICKER_LEN
            && target_url@.len() > MAX_URL_LEN ==> r == Err::<(), Failure>(
            Failure::Program(ErrorCode::UrlTooLong),
        ),
        !old(registry).contains_ticker(ticker@) && ticker@.len() <= MAX_TICKER_LEN
            && target_url@.len() <= MAX_URL_LEN && description@.len() > MAX_DESCRIPTION_LEN ==> r
            == Err::<(), Failure>(Failure::Program(ErrorCode::DescriptionTooLong)),
        !old(registry).contains_ticker(ticker@) && ticker@.len() <= MAX_TICKER_LEN
            && target_url@.len() <= MAX_URL_LEN && description@.len() <= MAX_DESCRIPTION_LEN && old(
            ledger,
        ).balance_of(owner) < REGISTRATION_FEE ==> r == Err::<(), Failure>(
            Failure::Runtime(RuntimeError::InsufficientFunds),
        ),
        r is Ok ==> final(registry)@ == old(registry)@.push(
            new_ticker_account(owner, ticker, target_url, description, contract_address, now),
        ),
        r is Ok ==> final(registry).contains_ticker(ticker@) && final(registry).record_for(ticker@)
            == new_ticker_account(owner, ticker, target_url, description, contract_address, now),
        r is Ok ==> paid(*old(ledger), *final(ledger), owner, fee_recipient, REGISTRATION_FEE),
{
    if let Some(_) = registry.find(&ticker) {
        return Err(Failure::Runtime(RuntimeError::AccountAlreadyExists));
    }
    if ticker.as_str().unicode_len() > MAX_TICKER_LEN {
        return Err(Failure::Program(ErrorCode::TickerTooLong));
    }
    if target_url.as_str().unicode_len() > MAX_URL_LEN {
        return Err(Failure::Program(ErrorCode::UrlTooLong));
    }
    if description.as_str().unicode_len() > MAX_DESCRIPTION_LEN {
        return Err(Failure::Program(ErrorCode::DescriptionTooLong));
    }
    match ledger.transfer(owner, fee_recipient, REGISTRATION_FEE) {
        Err(e) => {
            return Err(Failure::Runtime(e));
        },
        Ok(()) => {},
    }
    let ghost pre = *registry;
    let rec = TickerAccount {
        owner,
        ticker,
        target_url,
        description,
        contract_address,
        is_for_sale: false,
        price: 0,
        created_at: now,
    };
    registry.accounts.push(rec);
    proof {
        assert forall|i: int, j: int| 0 <= i < j < registry@.len() implies registry@[i].ticker@
            != registry@[j].ticker@ by {
            if j < pre@.len() {
                assert(pre@[i].ticker@ != pre@[j].ticker@);
            } else {
                assert(pre@[i].ticker@ != ticker@);
            }
        }
        lemma_record_at(*registry, pre@.len() as int);
    }
    Ok(())
}

/// Applies the owner's metadata changes to a registration, re-validating
/// the length limits.  All changes land together or none do; the ticker
/// itself and the marketplace state are untouched.
pub fn update_ticker(
    registry: &mut Registry,
    ticker: &String,
    signer: Identity,
    target_url: Option<String>,
    description: Option<String>,
    contract_address: Option<String>,
) -> (r: Result<(), Failure>)
    requires
        old(registry).wf(),
        old(registry).contains_ticker(ticker@),
    ensures
        final(registry).wf(),
        r is Ok <==> (signer == old(registry).record_for(ticker@).owner && (target_url matches Some(
            u,
        ) ==> u@.len() <= MAX_URL_LEN) && (description matches Some(d) ==> d@.len()
            <= MAX_DESCRIPTION_LEN)),
        r is Err ==> *final(registry) == *old(registry),
        signer != old(registry).record_for(ticker@).owner ==> r == Err::<(), Failure>(
            Failure::Runtime(RuntimeError::NotAuthorized),
        ),
        signer == old(registry).record_for(ticker@).owner && (target_url matches Some(u)
            && u@.len() > MAX_URL_LEN) ==> r == Err::<(), Failure>(
            Failure::Program(ErrorCode::UrlTooLong),
        ),
        signer == old(registry).record_for(ticker@).owner && (target_url matches Some(u) ==> u@.len()
            <= MAX_URL_LEN) && (description matches Some(d) && d@.len() > MAX_DESCRIPTION_LEN)
            ==> r == Err::<(), Failure>(Failure::Program(ErrorCode::DescriptionTooLong)),
        r is Ok ==> final(registry)@ == old(registry)@.update(
            old(registry).index_of(ticker@),
            updated(old(registry).record_for(ticker@), target_url, description, contract_address),
        ),
        r is Ok ==> final(registry).contains_ticker(ticker@) && final(registry).record_for(ticker@)
            == updated(
            old(registry).record_for(ticker@),
            target_url,
            description,
            contract_address,
        ),
        forall|t2: Seq<char>|
            t2 != ticker@ ==> final(registry).contains_ticker(t2) == old(
                registry,
            ).contains_ticker(t2),
        forall|t2: Seq<char>|
            t2 != ticker@ && old(registry).contains_ticker(t2) ==> final(registry).record_for(t2)
                == old(registry).record_for(t2),
{
    let idx = registry.find(ticker);
    proof {
        if idx is None {
            assert(false);
        }
    }
    let i = idx.unwrap();
    proof {
        lemma_record_at(*registry, i as int);
    }
    if registry.accounts[i].owner != signer {
        return Err(Failure::Runtime(RuntimeError::NotAuthorized));
    }
    let url_ok = match &target_url {
        Some(u) => u.as_str().unicode_len() <= MAX_URL_LEN,
        None => true,
    };
    if !url_ok {
        return Err(Failure::Program(ErrorCode::UrlTooLong));
    }
    let desc_ok = match &description {
        Some(d) => d.as_str().unicode_len() <= MAX_DESCRIPTION_LEN,
        None => true,
    };
    if !desc_ok {
        return Err(Failure::Program(ErrorCode::DescriptionTooLong));
    }
    let ghost pre = *registry;
    let rec = &mut registry.accounts[i];
    if let Some(u) = target_url {
        rec.target_url = u;
    }
    if let Some(d) = description {
        rec.description = d;
    }
    if let Some(c) = contract_address {
        rec.contract_address = Some(c);
    }
    proof {
        lemma_update_frame(pre, *registry, i as int, registry@[i as int]);
    }
    Ok(())
}

/// Lists a registration for sale at the given price, unconditionally: no
/// minimum applies, and a price of 0 makes the ticker a free transfer to
/// the first buyer.
pub fn list_for_sale(registry: &mut Registry, ticker: &String, signer: Identity, price: u64) -> (r:
    Result<(), Failure>)
    requires
        old(registry).wf(),
        old(registry).contains_ticker(ticker@),
    ensures
        final(registry).wf(),
        r is Ok <==> signer == old(registry).record_for(ticker@).owner,
        r is Err ==> *final(registry) == *old(registry) && r == Err::<(), Failure>(
            Failure::Runtime(RuntimeError::NotAuthorized),
        ),
        r is Ok ==> final(registry)@ == old(registry)@.update(
            old(registry).index_of(ticker@),
            listed(old(registry).record_for(ticker@), price),
        ),
        r is Ok ==> final(registry).contains_ticker(ticker@) && final(registry).record_for(ticker@)
            == listed(old(registry).record_for(ticker@), price),
        forall|t2: Seq<char>|
            t2 != ticker@ ==> final(registry).contains_ticker(t2) == old(
                registry,
            ).contains_ticker(t2),
        forall|t2: Seq<char>|
            t2 != ticker@ && old(registry).contains_ticker(t2) ==> final(registry).record_for(t2)
                == old(registry).record_for(t2),
{
    let idx = registry.find(ticker);
    proof {
        if idx is None {
            assert(false);
        }
    }
    let i = idx.unwrap();
    proof {
        lemma_record_at(*registry, i as int);
    }
    if registry.accounts[i].owner != signer {
        return Err(Failure::Runtime(RuntimeError::NotAuthorized));
    }
    let ghost pre = *registry;
    let rec = &mut registry.accounts[i];
    rec.is_for_sale = true;
    rec.price = price;
    proof {
        lemma_update_frame(pre, *registry, i as int, registry@[i as int]);
    }
    Ok(())
}

/// Buys a listed registration: atomically moves the asking price from the
/// buyer to the current owner, reassigns ownership to the buyer, and resets
/// the record to `(is_for_sale = false, price = 0)`.  Fails with
/// `NotForSale` when the record is not listed, and moves nothing then.
pub fn buy_ticker(registry: &mut Registry, ledger: &mut Ledger, ticker: &String, buyer: Identity) -> (r:
    Result<(), Failure>)
    requires
        old(registry).wf(),
        old(ledger).wf(),
        old(registry).contains_ticker(ticker@),
        buyer != old(registry).record_for(ticker@).owner ==> old(ledger).balance_of(
            old(registry).record_for(ticker@).owner,
        ) + old(registry).record_for(ticker@).price <= u64::MAX,
    ensures
        final(registry).wf(),
        final(ledger).wf(),
        r is Ok <==> (old(registry).record_for(ticker@).is_for_sale && old(ledger).balance_of(buyer)
            >= old(registry).record_for(ticker@).price),
        r is Err ==> *final(registry) == *old(registry) && *final(ledger) == *old(ledger),
        !old(registry).record_for(ticker@).is_for_sale ==> r == Err::<(), Failure>(
            Failure::Program(ErrorCode::NotForSale),
        ),
        old(registry).record_for(ticker@).is_for_sale && old(ledger).balance_of(buyer) < old(
            registry,
        ).record_for(ticker@).price ==> r == Err::<(), Failure>(
            Failure::Runtime(RuntimeError::InsufficientFunds),
        ),
        r is Ok ==> final(registry)@ == old(registry)@.update(
            old(registry).index_of(ticker@),
            sold(old(registry).record_for(ticker@), buyer),
        ),
        r is Ok ==> final(registry).contains_ticker(ticker@) && final(registry).record_for(ticker@)
            == sold(old(registry).record_for(ticker@), buyer),
        r is Ok ==> paid(
            *old(ledger),
            *final(ledger),
            buyer,
            old(registry).record_for(ticker@).owner,
            old(registry).record_for(ticker@).price,
        ),
        forall|t2: Seq<char>|
            t2 != ticker@ ==> final(registry).contains_ticker(t2) == old(
                registry,
            ).contains_ticker(t2),
        forall|t2: Seq<char>|
            t2 != ticker@ && old(registry).contains_ticker(t2) ==> final(registry).record_for(t2)
                == old(registry).record_for(t2),
{
    let idx = registry.find(ticker);
    proof {
        if idx is None {
            assert(false);
        }
    }
    let i = idx.unwrap();
    proof {
        lemma_record_at(*registry, i as int);
    }
    if !registry.accounts[i].is_for_sale {
        return Err(Failure::Program(ErrorCode::NotForSale));
    }
    let seller = registry.accounts[i].owner;
    let amount = registry.accounts[i].price;
    match ledger.transfer(buyer, seller, amount) {
        Err(e) => {
            return Err(Failure::Runtime(e));
        },
        Ok(()) => {},
    }
    let ghost pre = *registry;
    let rec = &mut registry.accounts[i];
    rec.owner = buyer;
    rec.is_for_sale = false;
    rec.price = 0;
    proof {
        lemma_update_frame(pre, *registry, i as int, registry@[i as int]);
    }
    Ok(())
}

/// Takes a registration off the market: resets it to `(is_for_sale =
/// false, price = 0)`.  Safe to call whether or not the record was listed,
/// and doing it twice changes nothing further.
pub fn cancel_sale(registry: &mut Registry, ticker: &String, signer: Identity) -> (r: Result<
    (),
    Failure,
>)
    requires
        old(registry).wf(),
        old(registry).contains_ticker(ticker@),
    ensures
        final(registry).wf(),
        r is Ok <==> signer == old(registry).record_for(ticker@).owner,
        r is Err ==> *final(registry) == *old(registry) && r == Err::<(), Failure>(
            Failure::Runtime(RuntimeError::NotAuthorized),
        ),
        r is Ok ==> final(registry)@ == old(registry)@.update(
            old(registry).index_of(ticker@),
            delisted(old(registry).record_for(ticker@)),
        ),
        r is Ok ==> final(registry).contains_ticker(ticker@) && final(registry).record_for(ticker@)
            == delisted(old(registry).record_for(ticker@)),
        forall|t2: Seq<char>|
            t2 != ticker@ ==> final(registry).contains_ticker(t2) == old(
                registry,
            ).contains_ticker(t2),
        forall|t2: Seq<char>|
            t2 != ticker@ && old(registry).contains_ticker(t2) ==> final(registry).record_for(t2)
                == old(registry).record_for(t2),
{
    let idx = registry.find(ticker);
    proof {
        if idx is None {
            assert(false);
        }
    }
    let i = idx.unwrap();
    proof {
        lemma_record_at(*registry, i as int);
    }
    if registry.accounts[i].owner != signer {
        return Err(Failure::Runtime(RuntimeError::NotAuthorized));
    }
    let ghost pre = *registry;
    let rec = &mut registry.accounts[i];
    rec.is_for_sale = false;
    rec.price = 0;
    proof {
        lemma_update_frame(pre, *registry, i as int, registry@[i as int]);
    }
    Ok(())
}

/// Both ways off the market land in the same state: a cancelled sale and a
/// completed purchase leave the record delisted with price 0, and repeating
/// either reset changes nothing further.  In particular a record just sold
/// is not for sale, so of two serialized purchase attempts only the first
/// can succeed.
pub proof fn lemma_sale_state_reset(rec: TickerAccount, buyer: Identity)
    ensures
        !delisted(rec).is_for_sale && delisted(rec).price == 0,
        !sold(rec, buyer).is_for_sale && sold(rec, buyer).price == 0,
        delisted(delisted(rec)) == delisted(rec),
        delisted(sold(rec, buyer)) == sold(rec, buyer),
{
}

} // verus!
