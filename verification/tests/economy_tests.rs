use goticker::economy::{
    cancel_subscription, create_subscription, initialize_payment_config, process_payment,
    renew_subscription, update_payment_config, Economy, ErrorCode, Failure, RevenueShare,
};
use goticker::ledger::{Ledger, RuntimeError};

const CONFIG_OWNER: u64 = 10;
const PAYER: u64 = 11;
const SUBSCRIBER: u64 = 12;

const MONTH: u64 = 2_592_000;

fn configure_abc(econ: &mut Economy, enabled: bool) {
    let shares = vec![RevenueShare { recipient: CONFIG_OWNER, percentage: 100 }];
    let r = initialize_payment_config(
        econ,
        CONFIG_OWNER,
        "ABC".to_string(),
        250,
        shares,
        enabled,
        500,
        MONTH,
        1_000,
    );
    assert_eq!(r, Ok(()));
}

#[test]
fn configure_initializes_counters() {
    let mut econ = Economy::new();
    configure_abc(&mut econ, true);
    let key = "ABC".to_string();
    let cfg = econ.get_config(&key).unwrap();
    assert_eq!(cfg.owner, CONFIG_OWNER);
    assert_eq!(cfg.base_fee, 250);
    assert_eq!(cfg.revenue_shares.len(), 1);
    assert!(cfg.subscription_enabled);
    assert_eq!(cfg.subscription_price, 500);
    assert_eq!(cfg.subscription_period, MONTH);
    assert_eq!(cfg.total_payments, 0);
    assert_eq!(cfg.total_revenue, 0);
    assert_eq!(cfg.created_at, 1_000);
}

#[test]
fn duplicate_config_is_rejected() {
    let mut econ = Economy::new();
    configure_abc(&mut econ, true);
    let r = initialize_payment_config(
        &mut econ,
        PAYER,
        "ABC".to_string(),
        0,
        vec![],
        false,
        0,
        0,
        2_000,
    );
    assert_eq!(r, Err(Failure::Runtime(RuntimeError::AccountAlreadyExists)));
    assert_eq!(econ.get_config(&"ABC".to_string()).unwrap().owner, CONFIG_OWNER);
}

#[test]
fn reconfigure_is_owner_only_and_wholesale() {
    let mut econ = Economy::new();
    configure_abc(&mut econ, false);
    let key = "ABC".to_string();

    let r = update_payment_config(&mut econ, &key, PAYER, Some(1), None, None, None, None);
    assert_eq!(r, Err(Failure::Runtime(RuntimeError::NotAuthorized)));

    let new_shares = vec![
        RevenueShare { recipient: PAYER, percentage: 40 },
        RevenueShare { recipient: SUBSCRIBER, percentage: 60 },
    ];
    let r = update_payment_config(
        &mut econ,
        &key,
        CONFIG_OWNER,
        Some(999),
        Some(new_shares),
        Some(true),
        Some(750),
        None,
    );
    assert_eq!(r, Ok(()));
    let cfg = econ.get_config(&key).unwrap();
    assert_eq!(cfg.base_fee, 999);
    // The share list was replaced in full, not merged.
    assert_eq!(cfg.revenue_shares.len(), 2);
    assert_eq!(cfg.revenue_shares[0].recipient, PAYER);
    assert!(cfg.subscription_enabled);
    assert_eq!(cfg.subscription_price, 750);
    assert_eq!(cfg.subscription_period, MONTH);
}

#[test]
fn payment_moves_value_and_writes_a_receipt() {
    let mut econ = Economy::new();
    let mut ledger = Ledger::new();
    configure_abc(&mut econ, false);
    ledger.credit(PAYER, 10_000);

    let r = process_payment(
        &mut econ,
        &mut ledger,
        "ABC".to_string(),
        PAYER,
        CONFIG_OWNER,
        4_000,
        5_000,
    );
    assert_eq!(r, Ok(()));
    assert_eq!(ledger.balance(PAYER), 6_000);
    assert_eq!(ledger.balance(CONFIG_OWNER), 4_000);

    let cfg = econ.get_config(&"ABC".to_string()).unwrap();
    assert_eq!(cfg.total_payments, 1);
    assert_eq!(cfg.total_revenue, 4_000);

    assert_eq!(econ.record_count(), 1);
    let receipt = econ.record_at(0);
    assert_eq!(receipt.ticker, "ABC");
    assert_eq!(receipt.payer, PAYER);
    assert_eq!(receipt.amount, 4_000);
    assert_eq!(receipt.timestamp, 5_000);
}

#[test]
fn payment_destination_is_caller_supplied() {
    // The destination account is taken from the transaction and is not
    // checked against the configuration's stored owner.
    let mut econ = Economy::new();
    let mut ledger = Ledger::new();
    configure_abc(&mut econ, false);
    ledger.credit(PAYER, 1_000);

    let elsewhere: u64 = 99;
    let r = process_payment(
        &mut econ,
        &mut ledger,
        "ABC".to_string(),
        PAYER,
        elsewhere,
        1_000,
        5_000,
    );
    assert_eq!(r, Ok(()));
    assert_eq!(ledger.balance(elsewhere), 1_000);
    assert_eq!(ledger.balance(CONFIG_OWNER), 0);
}

#[test]
fn payment_needs_funds() {
    let mut econ = Economy::new();
    let mut ledger = Ledger::new();
    configure_abc(&mut econ, false);
    ledger.credit(PAYER, 100);
    let r = process_payment(
        &mut econ,
        &mut ledger,
        "ABC".to_string(),
        PAYER,
        CONFIG_OWNER,
        101,
        5_000,
    );
    assert_eq!(r, Err(Failure::Runtime(RuntimeError::InsufficientFunds)));
    assert_eq!(econ.get_config(&"ABC".to_string()).unwrap().total_payments, 0);
    assert_eq!(econ.record_count(), 0);
}

#[test]
fn subscription_lifecycle_with_late_renewal() {
    // Subscribe at t0; the slot expires one period later.  Renewing a
    // little late grants one full period from the renewal time, not from
    // the missed expiry.
    let mut econ = Economy::new();
    let mut ledger = Ledger::new();
    configure_abc(&mut econ, true);
    let key = "ABC".to_string();
    ledger.credit(SUBSCRIBER, 10_000);

    let t0: i64 = 1_000_000;
    let r = create_subscription(
        &mut econ,
        &mut ledger,
        "ABC".to_string(),
        SUBSCRIBER,
        CONFIG_OWNER,
        t0,
    );
    assert_eq!(r, Ok(()));
    let sub = econ.get_subscription(&key, SUBSCRIBER).unwrap();
    assert!(sub.is_active);
    assert_eq!(sub.created_at, t0);
    assert_eq!(sub.expires_at, t0 + MONTH as i64);
    assert_eq!(ledger.balance(SUBSCRIBER), 9_500);
    assert_eq!(ledger.balance(CONFIG_OWNER), 500);

    let t1: i64 = t0 + 2_600_000;
    let r = renew_subscription(&mut econ, &mut ledger, &key, SUBSCRIBER, CONFIG_OWNER, t1);
    assert_eq!(r, Ok(()));
    let sub = econ.get_subscription(&key, SUBSCRIBER).unwrap();
    assert_eq!(sub.expires_at, t0 + 2_600_000 + MONTH as i64);
    assert_ne!(sub.expires_at, t0 + 2 * MONTH as i64);

    let cfg = econ.get_config(&key).unwrap();
    assert_eq!(cfg.total_payments, 2);
    assert_eq!(cfg.total_revenue, 1_000);
    assert_eq!(econ.record_count(), 2);
    assert_eq!(econ.record_at(1).ticker, "ABC");
    assert_eq!(econ.record_at(1).amount, 500);
    assert_eq!(econ.record_at(1).timestamp, t1);
}

#[test]
fn early_renewal_extends_from_the_prior_expiry() {
    let mut econ = Economy::new();
    let mut ledger = Ledger::new();
    configure_abc(&mut econ, true);
    let key = "ABC".to_string();
    ledger.credit(SUBSCRIBER, 10_000);

    let t0: i64 = 1_000_000;
    assert_eq!(
        create_subscription(
            &mut econ,
            &mut ledger,
            "ABC".to_string(),
            SUBSCRIBER,
            CONFIG_OWNER,
            t0
        ),
        Ok(())
    );
    // Renew well before the expiry: the unused time is kept.
    let t1: i64 = t0 + 10;
    assert_eq!(
        renew_subscription(&mut econ, &mut ledger, &key, SUBSCRIBER, CONFIG_OWNER, t1),
        Ok(())
    );
    let sub = econ.get_subscription(&key, SUBSCRIBER).unwrap();
    assert_eq!(sub.expires_at, t0 + 2 * MONTH as i64);
}

#[test]
fn subscribing_needs_subscriptions_enabled() {
    let mut econ = Economy::new();
    let mut ledger = Ledger::new();
    configure_abc(&mut econ, false);
    ledger.credit(SUBSCRIBER, 10_000);
    let r = create_subscription(
        &mut econ,
        &mut ledger,
        "ABC".to_string(),
        SUBSCRIBER,
        CONFIG_OWNER,
        0,
    );
    assert_eq!(r, Err(Failure::Program(ErrorCode::SubscriptionsNotEnabled)));
    assert_eq!(ledger.balance(SUBSCRIBER), 10_000);
    assert!(econ.get_subscription(&"ABC".to_string(), SUBSCRIBER).is_none());
}

#[test]
fn subscription_slot_is_taken_forever() {
    let mut econ = Economy::new();
    let mut ledger = Ledger::new();
    configure_abc(&mut econ, true);
    let key = "ABC".to_string();
    ledger.credit(SUBSCRIBER, 10_000);

    assert_eq!(
        create_subscription(
            &mut econ,
            &mut ledger,
            "ABC".to_string(),
            SUBSCRIBER,
            CONFIG_OWNER,
            0
        ),
        Ok(())
    );
    // A second subscribe fails at allocation whatever the slot holds.
    let r = create_subscription(
        &mut econ,
        &mut ledger,
        "ABC".to_string(),
        SUBSCRIBER,
        CONFIG_OWNER,
        10,
    );
    assert_eq!(r, Err(Failure::Runtime(RuntimeError::AccountAlreadyExists)));

    // Even after cancelling: the slot is mutated, never freed.
    assert_eq!(cancel_subscription(&mut econ, &key, SUBSCRIBER), Ok(()));
    let r = create_subscription(
        &mut econ,
        &mut ledger,
        "ABC".to_string(),
        SUBSCRIBER,
        CONFIG_OWNER,
        20,
    );
    assert_eq!(r, Err(Failure::Runtime(RuntimeError::AccountAlreadyExists)));
}

#[test]
fn unsubscribe_then_renew_fails_not_active() {
    let mut econ = Economy::new();
    let mut ledger = Ledger::new();
    configure_abc(&mut econ, true);
    let key = "ABC".to_string();
    ledger.credit(SUBSCRIBER, 10_000);

    assert_eq!(
        create_subscription(
            &mut econ,
            &mut ledger,
            "ABC".to_string(),
            SUBSCRIBER,
            CONFIG_OWNER,
            0
        ),
        Ok(())
    );
    assert_eq!(cancel_subscription(&mut econ, &key, SUBSCRIBER), Ok(()));
    let sub = econ.get_subscription(&key, SUBSCRIBER).unwrap();
    assert!(!sub.is_active);
    // The expiry is left in place; only the flag dropped.
    assert_eq!(sub.expires_at, MONTH as i64);

    let balance_before = ledger.balance(SUBSCRIBER);
    let r = renew_subscription(&mut econ, &mut ledger, &key, SUBSCRIBER, CONFIG_OWNER, 5);
    assert_eq!(r, Err(Failure::Program(ErrorCode::SubscriptionNotActive)));
    assert_eq!(ledger.balance(SUBSCRIBER), balance_before);
    assert_eq!(econ.get_config(&key).unwrap().total_payments, 1);
}

#[test]
fn renewal_needs_subscriptions_enabled() {
    let mut econ = Economy::new();
    let mut ledger = Ledger::new();
    configure_abc(&mut econ, true);
    let key = "ABC".to_string();
    ledger.credit(SUBSCRIBER, 10_000);
    assert_eq!(
        create_subscription(
            &mut econ,
            &mut ledger,
            "ABC".to_string(),
            SUBSCRIBER,
            CONFIG_OWNER,
            0
        ),
        Ok(())
    );
    // The owner turns subscriptions off; an active slot no longer renews.
    assert_eq!(
        update_payment_config(
            &mut econ,
            &key,
            CONFIG_OWNER,
            None,
            None,
            Some(false),
            None,
            None
        ),
        Ok(())
    );
    let r = renew_subscription(&mut econ, &mut ledger, &key, SUBSCRIBER, CONFIG_OWNER, 5);
    assert_eq!(r, Err(Failure::Program(ErrorCode::SubscriptionsNotEnabled)));
}

#[test]
fn subscribing_needs_the_price() {
    let mut econ = Economy::new();
    let mut ledger = Ledger::new();
    configure_abc(&mut econ, true);
    ledger.credit(SUBSCRIBER, 499);
    let r = create_subscription(
        &mut econ,
        &mut ledger,
        "ABC".to_string(),
        SUBSCRIBER,
        CONFIG_OWNER,
        0,
    );
    assert_eq!(r, Err(Failure::Runtime(RuntimeError::InsufficientFunds)));
    assert!(econ.get_subscription(&"ABC".to_string(), SUBSCRIBER).is_none());
    assert_eq!(econ.record_count(), 0);
}

#[test]
fn repeated_renewals_never_move_the_expiry_back() {
    let mut econ = Economy::new();
    let mut ledger = Ledger::new();
    configure_abc(&mut econ, true);
    let key = "ABC".to_string();
    ledger.credit(SUBSCRIBER, 10_000);

    assert_eq!(
        create_subscription(
            &mut econ,
            &mut ledger,
            "ABC".to_string(),
            SUBSCRIBER,
            CONFIG_OWNER,
            0
        ),
        Ok(())
    );
    // Early, late, and on-time renewals, in turn.
    let times: [i64; 3] = [100, 9_000_000, 9_000_000 + MONTH as i64];
    let mut last = econ.get_subscription(&key, SUBSCRIBER).unwrap().expires_at;
    for t in times {
        assert_eq!(
            renew_subscription(&mut econ, &mut ledger, &key, SUBSCRIBER, CONFIG_OWNER, t),
            Ok(())
        );
        let next = econ.get_subscription(&key, SUBSCRIBER).unwrap().expires_at;
        assert!(next >= last);
        // One full period beyond whichever is later, the prior expiry or
        // the renewal time.
        assert_eq!(next, if last >= t { last } else { t } + MONTH as i64);
        last = next;
    }
}
