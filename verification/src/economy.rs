//! The payment and subscription engine: monetization configuration per
//! ticker symbol, an append-only receipt log, and subscriber records.
//!
//! The engine shares only the ticker symbol with the registry; its `owner`
//! field is independent of the registry's and nothing synchronizes the
//! two.  Payment configurations are keyed by ticker, subscriptions by the
//! pair (configuration key, subscriber); both keyed stores reproduce the
//! runtime's create-only-if-absent allocation, and [`Economy::wf`] is
//! their uniqueness invariant.
//!
//! Two stored fields are deliberately inert, matching the transition
//! rules: `base_fee` is advisory and never compared with a payment's
//! amount, and `revenue_shares` is stored and replaceable but never
//! consulted when value moves.

use vstd::prelude::*;
use vstd::string::StrSliceExecFns;
use crate::ledger::{paid, Identity, Ledger, RuntimeError};

verus! {

/// Upper bound on the stored revenue-share list.
pub const MAX_REVENUE_SHARES: usize = 10;

/// Maximum length of a ticker symbol, in characters.
pub const MAX_CONFIG_TICKER_LEN: usize = 20;

/// A stored, currently unused, split of future payments.
#[derive(Clone, Copy, PartialEq, Eq, Debug)]
pub struct RevenueShare {
    pub recipient: Identity,
    pub percentage: u8,
}

/// Monetization terms for one ticker symbol.
pub struct PaymentConfig {
    /// The natural key; set at creation.
    pub ticker: String,
    /// Who may reconfigure these terms.  Independent of the registry's
    /// owner for the same symbol.
    pub owner: Identity,
    /// Advisory fee; never enforced against actual payment amounts.
    pub base_fee: u64,
    /// Stored split, never consulted during value transfer.
    pub revenue_shares: Vec<RevenueShare>,
    pub subscription_enabled: bool,
    pub subscription_price: u64,
    /// Subscription period in seconds.
    pub subscription_period: u64,
    /// Monotonic counter of payment events.
    pub total_payments: u64,
    /// Monotonic accumulator of amounts received.
    pub total_revenue: u64,
    pub created_at: i64,
}

/// One subscriber's slot under a payment configuration.  `is_active` and
/// `expires_at` are independent: nothing ever flips `is_active` when the
/// expiry passes; reading `expires_at` is the consumer's business.
pub struct Subscription {
    /// Back-reference: the natural key of the configuration subscribed to.
    pub payment_config: String,
    pub subscriber: Identity,
    pub is_active: bool,
    pub created_at: i64,
    pub expires_at: i64,
}

/// An immutable receipt, appended once per payment event.
pub struct PaymentRecord {
    pub ticker: String,
    pub payer: Identity,
    pub amount: u64,
    pub timestamp: i64,
}

/// Program-level failure reasons of the engine.
#[derive(Clone, Copy, PartialEq, Eq, Debug)]
pub enum ErrorCode {
    SubscriptionsNotEnabled,
    SubscriptionNotActive,
}

/// Everything an engine operation can fail with: an error of the program
/// itself, or one raised by the runtime layer before or during it.
#[derive(Clone, Copy, PartialEq, Eq, Debug)]
pub enum Failure {
    Program(ErrorCode),
    Runtime(RuntimeError),
}

/// The engine's durable state: configurations, subscriber slots, and the
/// ever-growing receipt log.
pub struct Economy {
    configs: Vec<PaymentConfig>,
    subscriptions: Vec<Subscription>,
    records: Vec<PaymentRecord>,
}

/// No two configurations share a ticker.
pub open spec fn configs_distinct(s: Seq<PaymentConfig>) -> bool {
    forall|i: int, j: int| 0 <= i < j < s.len() ==> s[i].ticker@ != s[j].ticker@
}

/// No two subscriptions share the (configuration, subscriber) pair.
pub open spec fn subs_distinct(s: Seq<Subscription>) -> bool {
    forall|i: int, j: int|
        0 <= i < j < s.len() ==> s[i].payment_config@ != s[j].payment_config@ || s[i].subscriber
            != s[j].subscriber
}

/// A configuration as first written: counters at zero, stamped with the
/// creation time.
pub open spec fn new_payment_config(
    ticker: String,
    owner: Identity,
    base_fee: u64,
    revenue_shares: Vec<RevenueShare>,
    subscription_enabled: bool,
    subscription_price: u64,
    subscription_period: u64,
    now: i64,
) -> PaymentConfig {
    PaymentConfig {
        ticker,
        owner,
        base_fee,
        revenue_shares,
        subscription_enabled,
        subscription_price,
        subscription_period,
        total_payments: 0u64,
        total_revenue: 0u64,
        created_at: now,
    }
}

/// A configuration after an owner update: each field supplied wholesale
/// replaces the stored one (the share list in full, not merged); counters,
/// key and owner stay.
pub open spec fn reconfigured(
    c: PaymentConfig,
    base_fee: Option<u64>,
    revenue_shares: Option<Vec<RevenueShare>>,
    subscription_enabled: Option<bool>,
    subscription_price: Option<u64>,
    subscription_period: Option<u64>,
) -> PaymentConfig {
    PaymentConfig {
        ticker: c.ticker,
        owner: c.owner,
        base_fee: match base_fee {
            Some(f) => f,
            None => c.base_fee,
        },
        revenue_shares: match revenue_shares {
            Some(v) => v,
            None => c.revenue_shares,
        },
        subscription_enabled: match subscription_enabled {
            Some(b) => b,
            None => c.subscription_enabled,
        },
        subscription_price: match subscription_price {
            Some(p) => p,
            None => c.subscription_price,
        },
        subscription_period: match subscription_period {
            Some(p) => p,
            None => c.subscription_period,
        },
        total_payments: c.total_payments,
        total_revenue: c.total_revenue,
        created_at: c.created_at,
    }
}

/// A configuration after one payment event of `amount`: one more payment
/// counted, that much more revenue accumulated.
pub open spec fn counted(c: PaymentConfig, amount: u64) -> PaymentConfig {
    PaymentConfig {
        ticker: c.ticker,
        owner: c.owner,
        base_fee: c.base_fee,
        revenue_shares: c.revenue_shares,
        subscription_enabled: c.subscription_enabled,
        subscription_price: c.subscription_price,
        subscription_period: c.subscription_period,
        total_payments: (c.total_payments + 1) as u64,
        total_revenue: (c.total_revenue + amount) as u64,
        created_at: c.created_at,
    }
}

/// The receipt a payment event appends.
pub open spec fn payment_receipt(
    ticker: String,
    payer: Identity,
    amount: u64,
    now: i64,
) -> PaymentRecord {
    PaymentRecord { ticker, payer, amount, timestamp: now }
}

/// A subscriber's slot as first written: active, expiring one period from
/// now.
pub open spec fn new_subscription(
    ticker: String,
    subscriber: Identity,
    period: u64,
    now: i64,
) -> Subscription {
    Subscription {
        payment_config: ticker,
        subscriber,
        is_active: true,
        created_at: now,
        expires_at: (now + period) as i64,
    }
}

pub open spec fn max_time(a: i64, b: i64) -> i64 {
    if a >= b {
        a
    } else {
        b
    }
}

/// Where a renewal moves the expiry: one full period beyond whichever is
/// later, the prior expiry or the renewal time.  A late renewal loses no
/// paid time relative to now, and no renewal stacks more than one period
/// ahead.
pub open spec fn renewed_expiry(expires_at: i64, now: i64, period: u64) -> int {
    max_time(expires_at, now) + period
}

/// The slot after a renewal at `now`.
pub open spec fn renewed(s: Subscription, now: i64, period: u64) -> Subscription {
    Subscription {
        payment_config: s.payment_config,
        subscriber: s.subscriber,
        is_active: s.is_active,
        created_at: s.created_at,
        expires_at: renewed_expiry(s.expires_at, now, period) as i64,
    }
}

/// The slot after the subscriber cancels: inactive, expiry left in place,
/// the slot itself never freed.
pub open spec fn deactivated(s: Subscription) -> Subscription {
    Subscription {
        payment_config: s.payment_config,
        subscriber: s.subscriber,
        is_active: false,
        created_at: s.created_at,
        expires_at: s.expires_at,
    }
}

impl Economy {
    pub closed spec fn configs_seq(self) -> Seq<PaymentConfig> {
        self.configs@
    }

    pub closed spec fn subscriptions_seq(self) -> Seq<Subscription> {
        self.subscriptions@
    }

    pub closed spec fn records_seq(self) -> Seq<PaymentRecord> {
        self.records@
    }

    /// The uniqueness invariant of both keyed stores.  Every operation
    /// requires and preserves it.
    pub open spec fn wf(self) -> bool {
        configs_distinct(self.configs_seq()) && subs_distinct(self.subscriptions_seq())
    }

    pub open spec fn contains_config(self, t: Seq<char>) -> bool {
        exists|i: int| 0 <= i < self.configs_seq().len() && self.configs_seq()[i].ticker@ == t
    }

    pub open spec fn config_index(self, t: Seq<char>) -> int {
        choose|i: int| 0 <= i < self.configs_seq().len() && self.configs_seq()[i].ticker@ == t
    }

    /// The one configuration keyed by `t` (meaningful when
    /// `contains_config(t)` holds in a well-formed engine).
    pub open spec fn config_for(self, t: Seq<char>) -> PaymentConfig {
        self.configs_seq()[self.config_index(t)]
    }

    pub open spec fn contains_subscription(self, t: Seq<char>, who: Identity) -> bool {
        exists|i: int|
            0 <= i < self.subscriptions_seq().len() && self.subscriptions_seq()[i].payment_config@
                == t && self.subscriptions_seq()[i].subscriber == who
    }

    pub open spec fn subscription_index(self, t: Seq<char>, who: Identity) -> int {
        choose|i: int|
            0 <= i < self.subscriptions_seq().len() && self.subscriptions_seq()[i].payment_config@
                == t && self.subscriptions_seq()[i].subscriber == who
    }

    /// The one slot keyed by `(t, who)` (meaningful when
    /// `contains_subscription(t, who)` holds in a well-formed engine).
    pub open spec fn subscription_for(self, t: Seq<char>, who: Identity) -> Subscription {
        self.subscriptions_seq()[self.subscription_index(t, who)]
    }

    /// An empty engine.
    pub fn new() -> (r: Economy)
        ensures
            r.wf(),
            r.configs_seq() == Seq::<PaymentConfig>::empty(),
            r.subscriptions_seq() == Seq::<Subscription>::empty(),
            r.records_seq() == Seq::<PaymentRecord>::empty(),
            forall|t: Seq<char>| !r.contains_config(t),
            forall|t: Seq<char>, who: Identity| !r.contains_subscription(t, who),
    {
        Economy { configs: Vec::new(), subscriptions: Vec::new(), records: Vec::new() }
    }

    fn find_config(&self, ticker: &String) -> (r: Option<usize>)
        ensures
            match r {
                Some(i) => i < self.configs_seq().len() && self.configs_seq()[i as int].ticker@
                    == ticker@,
                None => forall|i: int|
                    0 <= i < self.configs_seq().len() ==> self.configs_seq()[i].ticker@ != ticker@,
            },
    {
        let mut i: usize = 0;
        while i < self.configs.len()
            invariant
                i <= self.configs_seq().len(),
                forall|j: int| 0 <= j < i ==> self.configs_seq()[j].ticker@ != ticker@,
            decreases self.configs_seq().len() - i,
        {
            if self.configs[i].ticker == *ticker {
                return Some(i);
            }
            i = i + 1;
        }
        None
    }

    fn find_subscription(&self, ticker: &String, who: Identity) -> (r: Option<usize>)
        ensures
            match r {
                Some(i) => i < self.subscriptions_seq().len() && self.subscriptions_seq()[
                    i as int
                ].payment_config@ == ticker@ && self.subscriptions_seq()[i as int].subscriber
                    == who,
                None => forall|i: int|
                    0 <= i < self.subscriptions_seq().len() ==> self.subscriptions_seq()[
                        i
                    ].payment_config@ != ticker@ || self.subscriptions_seq()[i].subscriber != who,
            },
    {
        let mut i: usize = 0;
        while i < self.subscriptions.len()
            invariant
                i <= self.subscriptions_seq().len(),
                forall|j: int|
                    0 <= j < i ==> self.subscriptions_seq()[j].payment_config@ != ticker@
                        || self.subscriptions_seq()[j].subscriber != who,
            decreases self.subscriptions_seq().len() - i,
        {
            if self.subscriptions[i].payment_config == *ticker && self.subscriptions[i].subscriber
                == who {
                return Some(i);
            }
            i = i + 1;
        }
        None
    }

    /// Looks a configuration up by its ticker.
    pub fn get_config<'a>(&'a self, ticker: &String) -> (r: Option<&'a PaymentConfig>)
        requires
            self.wf(),
        ensures
            match r {
                Some(c) => self.contains_config(ticker@) && *c == self.config_for(ticker@),
                None => !self.contains_config(ticker@),
            },
    {
        match self.find_config(ticker) {
            Some(i) => {
                proof {
                    lemma_config_at(*self, i as int);
                }
                Some(&self.configs[i])
            },
            None => None,
        }
    }

    /// Looks a subscriber's slot up by its pair key.
    pub fn get_subscription<'a>(&'a self, ticker: &String, who: Identity) -> (r: Option<
        &'a Subscription,
    >)
        requires
            self.wf(),
        ensures
            match r {
                Some(s) => self.contains_subscription(ticker@, who) && *s == self.subscription_for(
                    ticker@,
                    who,
                ),
                None => !self.contains_subscription(ticker@, who),
            },
    {
        match self.find_subscription(ticker, who) {
            Some(i) => {
                proof {
                    lemma_subscription_at(*self, i as int);
                }
                Some(&self.subscriptions[i])
            },
            None => None,
        }
    }

    /// How many receipts the log holds.
    pub fn record_count(&self) -> (r: usize)
        ensures
            r == self.records_seq().len(),
    {
        self.records.len()
    }

    /// The receipt at position `i` of the log.
    pub fn record_at<'a>(&'a self, i: usize) -> (r: &'a PaymentRecord)
        requires
            i < self.records_seq().len(),
        ensures
            *r == self.records_seq()[i as int],
    {
        &self.records[i]
    }
}

/// Uniqueness of configuration: in a well-formed engine two positions
/// holding the same ticker are the same position.
pub proof fn lemma_config_unique(e: Economy, i: int, j: int)
    requires
        e.wf(),
        0 <= i < e.configs_seq().len(),
        0 <= j < e.configs_seq().len(),
        e.configs_seq()[i].ticker@ == e.configs_seq()[j].ticker@,
    ensures
        i == j,
{
    if i < j {
        assert(e.configs_seq()[i].ticker@ != e.configs_seq()[j].ticker@);
    }
    if j < i {
        assert(e.configs_seq()[j].ticker@ != e.configs_seq()[i].ticker@);
    }
}

/// Uniqueness of the subscription slot: at most one per (configuration,
/// subscriber) pair.
pub proof fn lemma_subscription_unique(e: Economy, i: int, j: int)
    requires
        e.wf(),
        0 <= i < e.subscriptions_seq().len(),
        0 <= j < e.subscriptions_seq().len(),
        e.subscriptions_seq()[i].payment_config@ == e.subscriptions_seq()[j].payment_config@,
        e.subscriptions_seq()[i].subscriber == e.subscriptions_seq()[j].subscriber,
    ensures
        i == j,
{
    if i < j {
        assert(e.subscriptions_seq()[i].payment_config@ != e.subscriptions_seq()[j].payment_config@
            || e.subscriptions_seq()[i].subscriber != e.subscriptions_seq()[j].subscriber);
    }
    if j < i {
        assert(e.subscriptions_seq()[j].payment_config@ != e.subscriptions_seq()[i].payment_config@
            || e.subscriptions_seq()[j].subscriber != e.subscriptions_seq()[i].subscriber);
    }
}

/// Position `i` is exactly where `config_index` points for its own ticker.
pub proof fn lemma_config_at(e: Economy, i: int)
    requires
        configs_distinct(e.configs_seq()),
        0 <= i < e.configs_seq().len(),
    ensures
        e.contains_config(e.configs_seq()[i].ticker@),
        e.config_index(e.configs_seq()[i].ticker@) == i,
        e.config_for(e.configs_seq()[i].ticker@) == e.configs_seq()[i],
{
    let t = e.configs_seq()[i].ticker@;
    assert(e.contains_config(t));
    let j = e.config_index(t);
    assert(0 <= j < e.configs_seq().len() && e.configs_seq()[j].ticker@ == t);
    if i < j {
        assert(e.configs_seq()[i].ticker@ != e.configs_seq()[j].ticker@);
    }
    if j < i {
        assert(e.configs_seq()[j].ticker@ != e.configs_seq()[i].ticker@);
    }
}

/// Position `i` is exactly where `subscription_index` points for its own
/// pair key.
pub proof fn lemma_subscription_at(e: Economy, i: int)
    requires
        subs_distinct(e.subscriptions_seq()),
        0 <= i < e.subscriptions_seq().len(),
    ensures
        e.contains_subscription(
            e.subscriptions_seq()[i].payment_config@,
            e.subscriptions_seq()[i].subscriber,
        ),
        e.subscription_index(
            e.subscriptions_seq()[i].payment_config@,
            e.subscriptions_seq()[i].subscriber,
        ) == i,
        e.subscription_for(
            e.subscriptions_seq()[i].payment_config@,
            e.subscriptions_seq()[i].subscriber,
        ) == e.subscriptions_seq()[i],
{
    let t = e.subscriptions_seq()[i].payment_config@;
    let who = e.subscriptions_seq()[i].subscriber;
    assert(e.contains_subscription(t, who));
    let j = e.subscription_index(t, who);
    assert(0 <= j < e.subscriptions_seq().len() && e.subscriptions_seq()[j].payment_config@ == t
        && e.subscriptions_seq()[j].subscriber == who);
    if i < j {
        assert(e.subscriptions_seq()[i].payment_config@ != e.subscriptions_seq()[j].payment_config@
            || e.subscriptions_seq()[i].subscriber != e.subscriptions_seq()[j].subscriber);
    }
    if j < i {
        assert(e.subscriptions_seq()[j].payment_config@ != e.subscriptions_seq()[i].payment_config@
            || e.subscriptions_seq()[j].subscriber != e.subscriptions_seq()[i].subscriber);
    }
}

/// Replacing the configuration at `i` by one with the same ticker keeps
/// the store distinct and leaves every other ticker's configuration as it
/// was.
proof fn lemma_config_update_frame(pre: Economy, post: Economy, i: int, c: PaymentConfig)
    requires
        configs_distinct(pre.configs_seq()),
        0 <= i < pre.configs_seq().len(),
        c.ticker@ == pre.configs_seq()[i].ticker@,
        post.configs_seq() == pre.configs_seq().update(i, c),
    ensures
        configs_distinct(post.configs_seq()),
        post.contains_config(c.ticker@),
        post.config_for(c.ticker@) == c,
        forall|t2: Seq<char>|
            t2 != c.ticker@ ==> post.contains_config(t2) == pre.contains_config(t2),
        forall|t2: Seq<char>|
            t2 != c.ticker@ && pre.contains_config(t2) ==> post.config_for(t2) == pre.config_for(
                t2,
            ),
{
    assert forall|p: int, q: int| 0 <= p < q < post.configs_seq().len() implies post.configs_seq()[
        p
    ].ticker@ != post.configs_seq()[q].ticker@ by {
        assert(pre.configs_seq()[p].ticker@ != pre.configs_seq()[q].ticker@);
    }
    lemma_config_at(post, i);
    assert forall|t2: Seq<char>| t2 != c.ticker@ implies post.contains_config(t2)
        == pre.contains_config(t2) by {
        if pre.contains_config(t2) {
            let j = pre.config_index(t2);
            assert(0 <= j < pre.configs_seq().len() && pre.configs_seq()[j].ticker@ == t2);
            assert(post.configs_seq()[j].ticker@ == t2);
            assert(post.contains_config(t2));
        }
        if post.contains_config(t2) {
            let j = post.config_index(t2);
            assert(0 <= j < post.configs_seq().len() && post.configs_seq()[j].ticker@ == t2);
            assert(pre.configs_seq()[j].ticker@ == t2);
            assert(pre.contains_config(t2));
        }
    }
    assert forall|t2: Seq<char>| t2 != c.ticker@ && pre.contains_config(t2) implies post.config_for(
        t2,
    ) == pre.config_for(t2) by {
        let j = pre.config_index(t2);
        assert(0 <= j < pre.configs_seq().len() && pre.configs_seq()[j].ticker@ == t2);
        assert(j != i);
        assert(post.configs_seq()[j] == pre.configs_seq()[j]);
        lemma_config_at(post, j);
        lemma_config_at(pre, j);
    }
}

/// Replacing the slot at `i` by one with the same pair key keeps the store
/// distinct and leaves every other slot as it was.
proof fn lemma_subscription_update_frame(pre: Economy, post: Economy, i: int, s: Subscription)
    requires
        subs_distinct(pre.subscriptions_seq()),
        0 <= i < pre.subscriptions_seq().len(),
        s.payment_config@ == pre.subscriptions_seq()[i].payment_config@,
        s.subscriber == pre.subscriptions_seq()[i].subscriber,
        post.subscriptions_seq() == pre.subscriptions_seq().update(i, s),
    ensures
        subs_distinct(post.subscriptions_seq()),
        post.contains_subscription(s.payment_config@, s.subscriber),
        post.subscription_for(s.payment_config@, s.subscriber) == s,
        forall|t2: Seq<char>, who: Identity|
            t2 != s.payment_config@ || who != s.subscriber ==> post.contains_subscription(t2, who)
                == pre.contains_subscription(t2, who),
        forall|t2: Seq<char>, who: Identity|
            (t2 != s.payment_config@ || who != s.subscriber) && pre.contains_subscription(t2, who)
                ==> post.subscription_for(t2, who) == pre.subscription_for(t2, who),
{
    assert forall|p: int, q: int| 0 <= p < q < post.subscriptions_seq().len() implies
        post.subscriptions_seq()[p].payment_config@ != post.subscriptions_seq()[q].payment_config@
        || post.subscriptions_seq()[p].subscriber != post.subscriptions_seq()[q].subscriber by {
        assert(pre.subscriptions_seq()[p].payment_config@ != pre.subscriptions_seq()[
            q
        ].payment_config@ || pre.subscriptions_seq()[p].subscriber != pre.subscriptions_seq()[
            q
        ].subscriber);
    }
    lemma_subscription_at(post, i);
    assert forall|t2: Seq<char>, who: Identity|
        t2 != s.payment_config@ || who != s.subscriber implies post.contains_subscription(t2, who)
        == pre.contains_subscription(t2, who) by {
        if pre.contains_subscription(t2, who) {
            let j = pre.subscription_index(t2, who);
            assert(post.subscriptions_seq()[j].payment_config@ == t2);
            assert(post.contains_subscription(t2, who));
        }
        if post.contains_subscription(t2, who) {
            let j = post.subscription_index(t2, who);
            assert(pre.subscriptions_seq()[j].payment_config@ == t2);
            assert(pre.contains_subscription(t2, who));
        }
    }
    assert forall|t2: Seq<char>, who: Identity|
        (t2 != s.payment_config@ || who != s.subscriber) && pre.contains_subscription(
            t2,
            who,
        ) implies post.subscription_for(t2, who) == pre.subscription_for(t2, who) by {
        let j = pre.subscription_index(t2, who);
        assert(0 <= j < pre.subscriptions_seq().len() && pre.subscriptions_seq()[j].payment_config@
            == t2 && pre.subscriptions_seq()[j].subscriber == who);
        assert(j != i);
        assert(post.subscriptions_seq()[j] == pre.subscriptions_seq()[j]);
        lemma_subscription_at(post, j);
        lemma_subscription_at(pre, j);
    }
}

/// Two states holding the same configuration store agree on every
/// configuration lookup.
proof fn lemma_same_configs(a: Economy, b: Economy)
    requires
        configs_distinct(a.configs_seq()),
        a.configs_seq() == b.configs_seq(),
    ensures
        forall|t: Seq<char>| a.contains_config(t) == b.contains_config(t),
        forall|t: Seq<char>|
            #[trigger] a.contains_config(t) ==> a.config_index(t) == b.config_index(t)
                && a.config_for(t) == b.config_for(t),
{
    assert forall|t: Seq<char>| a.contains_config(t) == b.contains_config(t) by {
        if a.contains_config(t) {
            let i = a.config_index(t);
            assert(0 <= i < a.configs_seq().len() && a.configs_seq()[i].ticker@ == t);
            assert(b.configs_seq()[i].ticker@ == t);
            assert(b.contains_config(t));
        }
        if b.contains_config(t) {
            let i = b.config_index(t);
            assert(0 <= i < b.configs_seq().len() && b.configs_seq()[i].ticker@ == t);
            assert(a.configs_seq()[i].ticker@ == t);
            assert(a.contains_config(t));
        }
    }
    assert forall|t: Seq<char>| a.contains_config(t) implies a.config_index(t) == b.config_index(t)
        && a.config_for(t) == b.config_for(t) by {
        let i = a.config_index(t);
        assert(0 <= i < a.configs_seq().len() && a.configs_seq()[i].ticker@ == t);
        lemma_config_at(a, i);
        lemma_config_at(b, i);
    }
}

/// Two states holding the same subscription store agree on every slot
/// lookup.
proof fn lemma_same_subs(a: Economy, b: Economy)
    requires
        subs_distinct(a.subscriptions_seq()),
        a.subscriptions_seq() == b.subscriptions_seq(),
    ensures
        forall|t: Seq<char>, who: Identity|
            a.contains_subscription(t, who) == b.contains_subscription(t, who),
        forall|t: Seq<char>, who: Identity|
            #[trigger] a.contains_subscription(t, who) ==> a.subscription_index(t, who)
                == b.subscription_index(t, who) && a.subscription_for(t, who)
                == b.subscription_for(t, who),
{
    assert forall|t: Seq<char>, who: Identity|
        a.contains_subscription(t, who) == b.contains_subscription(t, who) by {
        if a.contains_subscription(t, who) {
            let i = a.subscription_index(t, who);
            assert(0 <= i < a.subscriptions_seq().len() && a.subscriptions_seq()[i].payment_config@
                == t && a.subscriptions_seq()[i].subscriber == who);
            assert(b.subscriptions_seq()[i].payment_config@ == t);
            assert(b.contains_subscription(t, who));
        }
        if b.contains_subscription(t, who) {
            let i = b.subscription_index(t, who);
            assert(0 <= i < b.subscriptions_seq().len() && b.subscriptions_seq()[i].payment_config@
                == t && b.subscriptions_seq()[i].subscriber == who);
            assert(a.subscriptions_seq()[i].payment_config@ == t);
            assert(a.contains_subscription(t, who));
        }
    }
    assert forall|t: Seq<char>, who: Identity|
        a.contains_subscription(t, who) implies a.subscription_index(t, who)
        == b.subscription_index(t, who) && a.subscription_for(t, who) == b.subscription_for(
        t,
        who,
    ) by {
        let i = a.subscription_index(t, who);
        assert(0 <= i < a.subscriptions_seq().len() && a.subscriptions_seq()[i].payment_config@
            == t && a.subscriptions_seq()[i].subscriber == who);
        lemma_subscription_at(a, i);
        lemma_subscription_at(b, i);
    }
}

/// Appending a slot under a fresh pair key keeps the store distinct and
/// leaves every other slot as it was.
proof fn lemma_sub_push_frame(pre: Economy, post: Economy, s: Subscription)
    requires
        subs_distinct(pre.subscriptions_seq()),
        forall|i: int|
            0 <= i < pre.subscriptions_seq().len() ==> pre.subscriptions_seq()[i].payment_config@
                != s.payment_config@ || pre.subscriptions_seq()[i].subscriber != s.subscriber,
        post.subscriptions_seq() == pre.subscriptions_seq().push(s),
    ensures
        subs_distinct(post.subscriptions_seq()),
        post.contains_subscription(s.payment_config@, s.subscriber),
        post.subscription_for(s.payment_config@, s.subscriber) == s,
        forall|t2: Seq<char>, who: Identity|
            t2 != s.payment_config@ || who != s.subscriber ==> post.contains_subscription(t2, who)
                == pre.contains_subscription(t2, who),
        forall|t2: Seq<char>, who: Identity|
            (t2 != s.payment_config@ || who != s.subscriber) && pre.contains_subscription(t2, who)
                ==> post.subscription_for(t2, who) == pre.subscription_for(t2, who),
{
    let n = pre.subscriptions_seq().len() as int;
    assert forall|p: int, q: int| 0 <= p < q < post.subscriptions_seq().len() implies
        post.subscriptions_seq()[p].payment_config@ != post.subscriptions_seq()[q].payment_config@
        || post.subscriptions_seq()[p].subscriber != post.subscriptions_seq()[q].subscriber by {
        if q < n {
            assert(pre.subscriptions_seq()[p].payment_config@ != pre.subscriptions_seq()[
                q
            ].payment_config@ || pre.subscriptions_seq()[p].subscriber != pre.subscriptions_seq()[
                q
            ].subscriber);
        } else {
            assert(pre.subscriptions_seq()[p].payment_config@ != s.payment_config@
                || pre.subscriptions_seq()[p].subscriber != s.subscriber);
        }
    }
    lemma_subscription_at(post, n);
    assert forall|t2: Seq<char>, who: Identity|
        t2 != s.payment_config@ || who != s.subscriber implies post.contains_subscription(t2, who)
        == pre.contains_subscription(t2, who) by {
        if pre.contains_subscription(t2, who) {
            let j = pre.subscription_index(t2, who);
            assert(post.subscriptions_seq()[j].payment_config@ == t2);
            assert(post.contains_subscription(t2, who));
        }
        if post.contains_subscription(t2, who) {
            let j = post.subscription_index(t2, who);
            assert(0 <= j < post.subscriptions_seq().len() && post.subscriptions_seq()[
                j
            ].payment_config@ == t2 && post.subscriptions_seq()[j].subscriber == who);
            assert(j != n);
            assert(pre.subscriptions_seq()[j].payment_config@ == t2);
            assert(pre.contains_subscription(t2, who));
        }
    }
    assert forall|t2: Seq<char>, who: Identity|
        (t2 != s.payment_config@ || who != s.subscriber) && pre.contains_subscription(
            t2,
            who,
        ) implies post.subscription_for(t2, who) == pre.subscription_for(t2, who) by {
        let j = pre.subscription_index(t2, who);
        assert(0 <= j < pre.subscriptions_seq().len() && pre.subscriptions_seq()[j].payment_config@
            == t2 && pre.subscriptions_seq()[j].subscriber == who);
        assert(post.subscriptions_seq()[j] == pre.subscriptions_seq()[j]);
        lemma_subscription_at(post, j);
        lemma_subscription_at(pre, j);
    }
}

/// Creates the monetization terms for a ticker: counters start at zero and
/// the configuration lives forever.  Nothing validates the symbol against
/// the registry's record of the same name.
pub fn initialize_payment_config(
    econ: &mut Economy,
    owner: Identity,
    ticker: String,
    base_fee: u64,
    revenue_shares: Vec<RevenueShare>,
    subscription_enabled: bool,
    subscription_price: u64,
    subscription_period: u64,
    now: i64,
) -> (r: Result<(), Failure>)
    requires
        old(econ).wf(),
        ticker@.len() <= MAX_CONFIG_TICKER_LEN,
        revenue_shares@.len() <= MAX_REVENUE_SHARES,
    ensures
        final(econ).wf(),
        r is Ok <==> !old(econ).contains_config(ticker@),
        r is Err ==> *final(econ) == *old(econ) && r == Err::<(), Failure>(
            Failure::Runtime(RuntimeError::AccountAlreadyExists),
        ),
        r is Ok ==> final(econ).configs_seq() == old(econ).configs_seq().push(
            new_payment_config(
                ticker,
                owner,
                base_fee,
                revenue_shares,
                subscription_enabled,
                subscription_price,
                subscription_period,
                now,
            ),
        ),
        r is Ok ==> final(econ).contains_config(ticker@) && final(econ).config_for(ticker@)
            == new_payment_config(
            ticker,
            owner,
            base_fee,
            revenue_shares,
            subscription_enabled,
            subscription_price,
            subscription_period,
            now,
        ),
        final(econ).subscriptions_seq() == old(econ).subscriptions_seq(),
        final(econ).records_seq() == old(econ).records_seq(),
{
    if let Some(_) = econ.find_config(&ticker) {
        return Err(Failure::Runtime(RuntimeError::AccountAlreadyExists));
    }
    let ghost pre = *econ;
    let cfg = PaymentConfig {
        ticker,
        owner,
        base_fee,
        revenue_shares,
        subscription_enabled,
        subscription_price,
        subscription_period,
        total_payments: 0,
        total_revenue: 0,
        created_at: now,
    };
    econ.configs.push(cfg);
    proof {
        assert forall|i: int, j: int| 0 <= i < j < econ.configs_seq().len() implies
            econ.configs_seq()[i].ticker@ != econ.configs_seq()[j].ticker@ by {
            if j < pre.configs_seq().len() {
                assert(pre.configs_seq()[i].ticker@ != pre.configs_seq()[j].ticker@);
            } else {
                assert(pre.configs_seq()[i].ticker@ != ticker@);
            }
        }
        lemma_config_at(*econ, pre.configs_seq().len() as int);
    }
    Ok(())
}

/// Applies the configuration owner's changes; each supplied field replaces
/// the stored one wholesale.  Only the owner of this configuration may do
/// so - the registry's owner of the same symbol has no standing here.
pub fn update_payment_config(
    econ: &mut Economy,
    ticker: &String,
    signer: Identity,
    base_fee: Option<u64>,
    revenue_shares: Option<Vec<RevenueShare>>,
    subscription_enabled: Option<bool>,
    subscription_price: Option<u64>,
    subscription_period: Option<u64>,
) -> (r: Result<(), Failure>)
    requires
        old(econ).wf(),
        old(econ).contains_config(ticker@),
        revenue_shares matches Some(v) ==> v@.len() <= MAX_REVENUE_SHARES,
    ensures
        final(econ).wf(),
        r is Ok <==> signer == old(econ).config_for(ticker@).owner,
        r is Err ==> *final(econ) == *old(econ) && r == Err::<(), Failure>(
            Failure::Runtime(RuntimeError::NotAuthorized),
        ),
        r is Ok ==> final(econ).configs_seq() == old(econ).configs_seq().update(
            old(econ).config_index(ticker@),
            reconfigured(
                old(econ).config_for(ticker@),
                base_fee,
                revenue_shares,
                subscription_enabled,
                subscription_price,
                subscription_period,
            ),
        ),
        r is Ok ==> final(econ).contains_config(ticker@) && final(econ).config_for(ticker@)
            == reconfigured(
            old(econ).config_for(ticker@),
            base_fee,
            revenue_shares,
            subscription_enabled,
            subscription_price,
            subscription_period,
        ),
        forall|t2: Seq<char>|
            t2 != ticker@ ==> final(econ).contains_config(t2) == old(econ).contains_config(t2),
        forall|t2: Seq<char>|
            t2 != ticker@ && old(econ).contains_config(t2) ==> final(econ).config_for(t2) == old(
                econ,
            ).config_for(t2),
        final(econ).subscriptions_seq() == old(econ).subscriptions_seq(),
        final(econ).records_seq() == old(econ).records_seq(),
{
    let idx = econ.find_config(ticker);
    proof {
        if idx is None {
            assert(false);
        }
    }
    let i = idx.unwrap();
    proof {
        lemma_config_at(*econ, i as int);
    }
    if econ.configs[i].owner != signer {
        return Err(Failure::Runtime(RuntimeError::NotAuthorized));
    }
    let ghost pre = *econ;
    let cfg = &mut econ.configs[i];
    if let Some(f) = base_fee {
        cfg.base_fee = f;
    }
    if let Some(v) = revenue_shares {
        cfg.revenue_shares = v;
    }
    if let Some(b) = subscription_enabled {
        cfg.subscription_enabled = b;
    }
    if let Some(p) = subscription_price {
        cfg.subscription_price = p;
    }
    if let Some(p) = subscription_period {
        cfg.subscription_period = p;
    }
    proof {
        lemma_config_update_frame(pre, *econ, i as int, econ.configs_seq()[i as int]);
    }
    Ok(())
}

/// Records one payment: moves `amount` from the payer to the destination
/// account named by the transaction, bumps the counters, and appends a
/// receipt.
///
/// The destination is whatever account the caller supplies; it is not
/// checked against the configuration's stored owner.  Nothing relates
/// `amount` to the advisory `base_fee` either.  Both follow the transition
/// rules as they stand; see the design notes at the top of this module.
pub fn process_payment(
    econ: &mut Economy,
    ledger: &mut Ledger,
    ticker: String,
    payer: Identity,
    owner_account: Identity,
    amount: u64,
    now: i64,
) -> (r: Result<(), Failure>)
    requires
        old(econ).wf(),
        old(ledger).wf(),
        old(econ).contains_config(ticker@),
        old(econ).config_for(ticker@).total_payments < u64::MAX,
        old(econ).config_for(ticker@).total_revenue + amount <= u64::MAX,
        payer != owner_account ==> old(ledger).balance_of(owner_account) + amount <= u64::MAX,
    ensures
        final(econ).wf(),
        final(ledger).wf(),
        r is Ok <==> old(ledger).balance_of(payer) >= amount,
        r is Err ==> *final(econ) == *old(econ) && *final(ledger) == *old(ledger) && r == Err::<
            (),
            Failure,
        >(Failure::Runtime(RuntimeError::InsufficientFunds)),
        r is Ok ==> paid(*old(ledger), *final(ledger), payer, owner_account, amount),
        r is Ok ==> final(econ).configs_seq() == old(econ).configs_seq().update(
            old(econ).config_index(ticker@),
            counted(old(econ).config_for(ticker@), amount),
        ),
        r is Ok ==> final(econ).contains_config(ticker@) && final(econ).config_for(ticker@)
            == counted(old(econ).config_for(ticker@), amount),
        r is Ok ==> final(econ).records_seq() == old(econ).records_seq().push(
            payment_receipt(ticker, payer, amount, now),
        ),
        forall|t2: Seq<char>|
            t2 != ticker@ ==> final(econ).contains_config(t2) == old(econ).contains_config(t2),
        forall|t2: Seq<char>|
            t2 != ticker@ && old(econ).contains_config(t2) ==> final(econ).config_for(t2) == old(
                econ,
            ).config_for(t2),
        final(econ).subscriptions_seq() == old(econ).subscriptions_seq(),
{
    let idx = econ.find_config(&ticker);
    proof {
        if idx is None {
            assert(false);
        }
    }
    let i = idx.unwrap();
    proof {
        lemma_config_at(*econ, i as int);
    }
    match ledger.transfer(payer, owner_account, amount) {
        Err(e) => {
            return Err(Failure::Runtime(e));
        },
        Ok(()) => {},
    }
    let ghost pre = *econ;
    let cfg = &mut econ.configs[i];
    cfg.total_payments = cfg.total_payments + 1;
    cfg.total_revenue = cfg.total_revenue + amount;
    proof {
        lemma_config_update_frame(pre, *econ, i as int, econ.configs_seq()[i as int]);
    }
    let ghost mid = *econ;
    econ.records.push(PaymentRecord { ticker, payer, amount, timestamp: now });
    proof {
        lemma_same_configs(mid, *econ);
    }
    Ok(())
}

/// Opens a subscriber's slot under a configuration: pays one period's
/// price to the destination account named by the transaction (the same
/// caller-supplied destination as in [`process_payment`]), writes the slot
/// active and expiring one period from now, bumps the counters, and
/// appends a receipt.  The slot key is taken by this subscriber forever:
/// re-subscribing later fails at allocation whatever the slot's state.
pub fn create_subscription(
    econ: &mut Economy,
    ledger: &mut Ledger,
    ticker: String,
    subscriber: Identity,
    owner_account: Identity,
    now: i64,
) -> (r: Result<(), Failure>)
    requires
        old(econ).wf(),
        old(ledger).wf(),
        old(econ).contains_config(ticker@),
        old(econ).config_for(ticker@).total_payments < u64::MAX,
        old(econ).config_for(ticker@).total_revenue + old(econ).config_for(
            ticker@,
        ).subscription_price <= u64::MAX,
        old(econ).config_for(ticker@).subscription_period <= i64::MAX,
        now + old(econ).config_for(ticker@).subscription_period <= i64::MAX,
        subscriber != owner_account ==> old(ledger).balance_of(owner_account) + old(
            econ,
        ).config_for(ticker@).subscription_price <= u64::MAX,
    ensures
        final(econ).wf(),
        final(ledger).wf(),
        r is Ok <==> (!old(econ).contains_subscription(ticker@, subscriber) && old(
            econ,
        ).config_for(ticker@).subscription_enabled && old(ledger).balance_of(subscriber) >= old(
            econ,
        ).config_for(ticker@).subscription_price),
        r is Err ==> *final(econ) == *old(econ) && *final(ledger) == *old(ledger),
        old(econ).contains_subscription(ticker@, subscriber) ==> r == Err::<(), Failure>(
            Failure::Runtime(RuntimeError::AccountAlreadyExists),
        ),
        !old(econ).contains_subscription(ticker@, subscriber) && !old(econ).config_for(
            ticker@,
        ).subscription_enabled ==> r == Err::<(), Failure>(
            Failure::Program(ErrorCode::SubscriptionsNotEnabled),
        ),
        !old(econ).contains_subscription(ticker@, subscriber) && old(econ).config_for(
            ticker@,
        ).subscription_enabled && old(ledger).balance_of(subscriber) < old(econ).config_for(
            ticker@,
        ).subscription_price ==> r == Err::<(), Failure>(
            Failure::Runtime(RuntimeError::InsufficientFunds),
        ),
        r is Ok ==> paid(
            *old(ledger),
            *final(ledger),
            subscriber,
            owner_account,
            old(econ).config_for(ticker@).subscription_price,
        ),
        r is Ok ==> final(econ).subscriptions_seq() == old(econ).subscriptions_seq().push(
            new_subscription(
                ticker,
                subscriber,
                old(econ).config_for(ticker@).subscription_period,
                now,
            ),
        ),
        r is Ok ==> final(econ).contains_subscription(ticker@, subscriber) && final(econ).subscription_for(ticker@, subscriber) == new_subscription(
            ticker,
            subscriber,
            old(econ).config_for(ticker@).subscription_period,
            now,
        ),
        r is Ok ==> final(econ).configs_seq() == old(econ).configs_seq().update(
            old(econ).config_index(ticker@),
            counted(
                old(econ).config_for(ticker@),
                old(econ).config_for(ticker@).subscription_price,
            ),
        ),
        r is Ok ==> final(econ).contains_config(ticker@) && final(econ).config_for(ticker@)
            == counted(
            old(econ).config_for(ticker@),
            old(econ).config_for(ticker@).subscription_price,
        ),
        r is Ok ==> final(econ).records_seq() == old(econ).records_seq().push(
            payment_receipt(
                ticker,
                subscriber,
                old(econ).config_for(ticker@).subscription_price,
                now,
            ),
        ),
        forall|t2: Seq<char>|
            t2 != ticker@ ==> final(econ).contains_config(t2) == old(econ).contains_config(t2),
        forall|t2: Seq<char>|
            t2 != ticker@ && old(econ).contains_config(t2) ==> final(econ).config_for(t2) == old(
                econ,
            ).config_for(t2),
        forall|t2: Seq<char>, who: Identity|
            t2 != ticker@ || who != subscriber ==> final(econ).contains_subscription(t2, who)
                == old(econ).contains_subscription(t2, who),
        forall|t2: Seq<char>, who: Identity|
            (t2 != ticker@ || who != subscriber) && old(econ).contains_subscription(t2, who)
                ==> final(econ).subscription_for(t2, who) == old(econ).subscription_for(t2, who),
{
    if let Some(_) = econ.find_subscription(&ticker, subscriber) {
        return Err(Failure::Runtime(RuntimeError::AccountAlreadyExists));
    }
    let idx = econ.find_config(&ticker);
    proof {
        if idx is None {
            assert(false);
        }
    }
    let i = idx.unwrap();
    proof {
        lemma_config_at(*econ, i as int);
    }
    if !econ.configs[i].subscription_enabled {
        return Err(Failure::Program(ErrorCode::SubscriptionsNotEnabled));
    }
    let price = econ.configs[i].subscription_price;
    let period = econ.configs[i].subscription_period;
    match ledger.transfer(subscriber, owner_account, price) {
        Err(e) => {
            return Err(Failure::Runtime(e));
        },
        Ok(()) => {},
    }
    let ghost pre = *econ;
    let sub = Subscription {
        payment_config: ticker.clone(),
        subscriber,
        is_active: true,
        created_at: now,
        expires_at: now + (period as i64),
    };
    econ.subscriptions.push(sub);
    proof {
        lemma_sub_push_frame(pre, *econ, sub);
        lemma_same_configs(pre, *econ);
    }
    let ghost pre2 = *econ;
    let cfg = &mut econ.configs[i];
    cfg.total_payments = cfg.total_payments + 1;
    cfg.total_revenue = cfg.total_revenue + price;
    proof {
        lemma_config_update_frame(pre2, *econ, i as int, econ.configs_seq()[i as int]);
        lemma_same_subs(pre2, *econ);
    }
    let ghost pre3 = *econ;
    econ.records.push(PaymentRecord { ticker, payer: subscriber, amount: price, timestamp: now });
    proof {
        lemma_same_configs(pre3, *econ);
        lemma_same_subs(pre3, *econ);
    }
    Ok(())
}

/// Renews an active subscription: pays one period's price to the
/// caller-supplied destination, moves the expiry one full period beyond
/// `max(prior expiry, now)`, bumps the counters, and appends a receipt
/// carrying the configuration's own ticker.  Time-based expiry is not
/// checked: a slot flagged active renews however far past its expiry; a
/// slot the subscriber cancelled fails with `SubscriptionNotActive`.
pub fn renew_subscription(
    econ: &mut Economy,
    ledger: &mut Ledger,
    ticker: &String,
    subscriber: Identity,
    owner_account: Identity,
    now: i64,
) -> (r: Result<(), Failure>)
    requires
        old(econ).wf(),
        old(ledger).wf(),
        old(econ).contains_config(ticker@),
        old(econ).contains_subscription(ticker@, subscriber),
        old(econ).config_for(ticker@).total_payments < u64::MAX,
        old(econ).config_for(ticker@).total_revenue + old(econ).config_for(
            ticker@,
        ).subscription_price <= u64::MAX,
        old(econ).config_for(ticker@).subscription_period <= i64::MAX,
        renewed_expiry(
            old(econ).subscription_for(ticker@, subscriber).expires_at,
            now,
            old(econ).config_for(ticker@).subscription_period,
        ) <= i64::MAX,
        subscriber != owner_account ==> old(ledger).balance_of(owner_account) + old(
            econ,
        ).config_for(ticker@).subscription_price <= u64::MAX,
    ensures
        final(econ).wf(),
        final(ledger).wf(),
        r is Ok <==> (old(econ).config_for(ticker@).subscription_enabled && old(
            econ,
        ).subscription_for(ticker@, subscriber).is_active && old(ledger).balance_of(subscriber)
            >= old(econ).config_for(ticker@).subscription_price),
        r is Err ==> *final(econ) == *old(econ) && *final(ledger) == *old(ledger),
        !old(econ).config_for(ticker@).subscription_enabled ==> r == Err::<(), Failure>(
            Failure::Program(ErrorCode::SubscriptionsNotEnabled),
        ),
        old(econ).config_for(ticker@).subscription_enabled && !old(econ).subscription_for(
            ticker@,
            subscriber,
        ).is_active ==> r == Err::<(), Failure>(Failure::Program(ErrorCode::SubscriptionNotActive)),
        old(econ).config_for(ticker@).subscription_enabled && old(econ).subscription_for(
            ticker@,
            subscriber,
        ).is_active && old(ledger).balance_of(subscriber) < old(econ).config_for(
            ticker@,
        ).subscription_price ==> r == Err::<(), Failure>(
            Failure::Runtime(RuntimeError::InsufficientFunds),
        ),
        r is Ok ==> paid(
            *old(ledger),
            *final(ledger),
            subscriber,
            owner_account,
            old(econ).config_for(ticker@).subscription_price,
        ),
        r is Ok ==> final(econ).subscriptions_seq() == old(econ).subscriptions_seq().update(
            old(econ).subscription_index(ticker@, subscriber),
            renewed(
                old(econ).subscription_for(ticker@, subscriber),
                now,
                old(econ).config_for(ticker@).subscription_period,
            ),
        ),
        r is Ok ==> final(econ).contains_subscription(ticker@, subscriber) && final(econ).subscription_for(ticker@, subscriber) == renewed(
            old(econ).subscription_for(ticker@, subscriber),
            now,
            old(econ).config_for(ticker@).subscription_period,
        ),
        r is Ok ==> final(econ).configs_seq() == old(econ).configs_seq().update(
            old(econ).config_index(ticker@),
            counted(
                old(econ).config_for(ticker@),
                old(econ).config_for(ticker@).subscription_price,
            ),
        ),
        r is Ok ==> final(econ).contains_config(ticker@) && final(econ).config_for(ticker@)
            == counted(
            old(econ).config_for(ticker@),
            old(econ).config_for(ticker@).subscription_price,
        ),
        r is Ok ==> final(econ).records_seq() == old(econ).records_seq().push(
            payment_receipt(
                old(econ).config_for(ticker@).ticker,
                subscriber,
                old(econ).config_for(ticker@).subscription_price,
                now,
            ),
        ),
        forall|t2: Seq<char>|
            t2 != ticker@ ==> final(econ).contains_config(t2) == old(econ).contains_config(t2),
        forall|t2: Seq<char>|
            t2 != ticker@ && old(econ).contains_config(t2) ==> final(econ).config_for(t2) == old(
                econ,
            ).config_for(t2),
        forall|t2: Seq<char>, who: Identity|
            t2 != ticker@ || who != subscriber ==> final(econ).contains_subscription(t2, who)
                == old(econ).contains_subscription(t2, who),
        forall|t2: Seq<char>, who: Identity|
            (t2 != ticker@ || who != subscriber) && old(econ).contains_subscription(t2, who)
                ==> final(econ).subscription_for(t2, who) == old(econ).subscription_for(t2, who),
{
    let cfg_idx = econ.find_config(ticker);
    proof {
        if cfg_idx is None {
            assert(false);
        }
    }
    let ci = cfg_idx.unwrap();
    proof {
        lemma_config_at(*econ, ci as int);
    }
    let sub_idx = econ.find_subscription(ticker, subscriber);
    proof {
        if sub_idx is None {
            assert(false);
        }
    }
    let si = sub_idx.unwrap();
    proof {
        lemma_subscription_at(*econ, si as int);
    }
    if !econ.configs[ci].subscription_enabled {
        return Err(Failure::Program(ErrorCode::SubscriptionsNotEnabled));
    }
    if !econ.subscriptions[si].is_active {
        return Err(Failure::Program(ErrorCode::SubscriptionNotActive));
    }
    let price = econ.configs[ci].subscription_price;
    let period = econ.configs[ci].subscription_period;
    match ledger.transfer(subscriber, owner_account, price) {
        Err(e) => {
            return Err(Failure::Runtime(e));
        },
        Ok(()) => {},
    }
    let ghost pre = *econ;
    let prior = econ.subscriptions[si].expires_at;
    let base = if prior >= now {
        prior
    } else {
        now
    };
    let sub = &mut econ.subscriptions[si];
    sub.expires_at = base + (period as i64);
    proof {
        lemma_subscription_update_frame(
            pre,
            *econ,
            si as int,
            econ.subscriptions_seq()[si as int],
        );
        lemma_same_configs(pre, *econ);
    }
    let ghost pre2 = *econ;
    let cfg = &mut econ.configs[ci];
    cfg.total_payments = cfg.total_payments + 1;
    cfg.total_revenue = cfg.total_revenue + price;
    proof {
        lemma_config_update_frame(pre2, *econ, ci as int, econ.configs_seq()[ci as int]);
        lemma_same_subs(pre2, *econ);
    }
    let ghost pre3 = *econ;
    let receipt_ticker = econ.configs[ci].ticker.clone();
    econ.records.push(
        PaymentRecord { ticker: receipt_ticker, payer: subscriber, amount: price, timestamp: now },
    );
    proof {
        lemma_same_configs(pre3, *econ);
        lemma_same_subs(pre3, *econ);
    }
    Ok(())
}

/// The subscriber closes their slot: `is_active` drops to false and stays
/// there.  The expiry is not cleared, nothing is refunded, and the slot is
/// never deleted - this record can never be renewed again, and the key
/// stays taken.  Only the subscriber the slot is keyed by reaches it.
pub fn cancel_subscription(econ: &mut Economy, ticker: &String, subscriber: Identity) -> (r: Result<
    (),
    Failure,
>)
    requires
        old(econ).wf(),
        old(econ).contains_subscription(ticker@, subscriber),
    ensures
        final(econ).wf(),
        r is Ok,
        final(econ).subscriptions_seq() == old(econ).subscriptions_seq().update(
            old(econ).subscription_index(ticker@, subscriber),
            deactivated(old(econ).subscription_for(ticker@, subscriber)),
        ),
        final(econ).contains_subscription(ticker@, subscriber) && final(econ).subscription_for(
            ticker@,
            subscriber,
        ) == deactivated(old(econ).subscription_for(ticker@, subscriber)),
        final(econ).configs_seq() == old(econ).configs_seq(),
        final(econ).records_seq() == old(econ).records_seq(),
        forall|t2: Seq<char>, who: Identity|
            t2 != ticker@ || who != subscriber ==> final(econ).contains_subscription(t2, who)
                == old(econ).contains_subscription(t2, who),
        forall|t2: Seq<char>, who: Identity|
            (t2 != ticker@ || who != subscriber) && old(econ).contains_subscription(t2, who)
                ==> final(econ).subscription_for(t2, who) == old(econ).subscription_for(t2, who),
{
    let sub_idx = econ.find_subscription(ticker, subscriber);
    proof {
        if sub_idx is None {
            assert(false);
        }
    }
    let si = sub_idx.unwrap();
    proof {
        lemma_subscription_at(*econ, si as int);
    }
    let ghost pre = *econ;
    let sub = &mut econ.subscriptions[si];
    sub.is_active = false;
    proof {
        lemma_subscription_update_frame(
            pre,
            *econ,
            si as int,
            econ.subscriptions_seq()[si as int],
        );
    }
    Ok(())
}

/// Renewal is monotonic: the expiry never moves backwards, and each
/// renewal grants at least one full period beyond whichever is later, the
/// prior expiry or the renewal time.  Applied to each step of any sequence
/// of renewals this makes the resulting expiries non-decreasing.
pub proof fn lemma_renew_monotonic(expires_at: i64, now: i64, period: u64)
    ensures
        renewed_expiry(expires_at, now, period) >= expires_at,
        renewed_expiry(expires_at, now, period) >= now + period,
        renewed_expiry(expires_at, now, period) >= max_time(expires_at, now) + period,
{
}

/// Two renewals in a row, whenever each lands within the representable
/// range, leave the expiry no earlier than either intermediate state.
pub proof fn lemma_renewals_nondecreasing(s: Subscription, now1: i64, now2: i64, period: u64)
    requires
        renewed_expiry(s.expires_at, now1, period) <= i64::MAX,
        renewed_expiry(renewed(s, now1, period).expires_at, now2, period) <= i64::MAX,
    ensures
        renewed(s, now1, period).expires_at >= s.expires_at,
        renewed(renewed(s, now1, period), now2, period).expires_at >= renewed(
            s,
            now1,
            period,
        ).expires_at,
{
}

/// The expiry after renewing at each time in `times`, in order.
pub open spec fn expiry_after_renewals(expires_at: i64, times: Seq<i64>, period: u64) -> i64
    decreases times.len(),
{
    if times.len() == 0 {
        expires_at
    } else {
        expiry_after_renewals(
            renewed_expiry(expires_at, times[0], period) as i64,
            times.drop_first(),
            period,
        )
    }
}

/// Every step of the sequence stays within the representable range.
pub open spec fn renewals_in_range(expires_at: i64, times: Seq<i64>, period: u64) -> bool
    decreases times.len(),
{
    times.len() == 0 || (renewed_expiry(expires_at, times[0], period) <= i64::MAX
        && renewals_in_range(
        renewed_expiry(expires_at, times[0], period) as i64,
        times.drop_first(),
        period,
    ))
}

/// For any sequence of renewals the resulting expiry is non-decreasing:
/// however many renewals happen and whenever they happen, the expiry never
/// moves before where it started.
pub proof fn lemma_renewal_sequence_monotonic(expires_at: i64, times: Seq<i64>, period: u64)
    requires
        renewals_in_range(expires_at, times, period),
    ensures
        expiry_after_renewals(expires_at, times, period) >= expires_at,
    decreases times.len(),
{
    if times.len() > 0 {
        lemma_renew_monotonic(expires_at, times[0], period);
        lemma_renewal_sequence_monotonic(
            renewed_expiry(expires_at, times[0], period) as i64,
            times.drop_first(),
            period,
        );
    }
}

/// Cancelling seals the slot: the record is inactive afterwards, and
/// cancelling again changes nothing.  Together with
/// [`renew_subscription`]'s contract - an inactive slot under an enabled
/// configuration fails with `SubscriptionNotActive` - a cancelled
/// subscription can never be renewed.
pub proof fn lemma_unsubscribe_terminal(s: Subscription)
    ensures
        !deactivated(s).is_active,
        deactivated(deactivated(s)) == deactivated(s),
{
}

} // verus!
