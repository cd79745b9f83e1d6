use goticker::ledger::{Ledger, RuntimeError};
use goticker::registry::{
    buy_ticker, cancel_sale, initialize_ticker, list_for_sale, update_ticker, ErrorCode, Failure,
    Registry, REGISTRATION_FEE,
};

const OWNER: u64 = 1;
const FEE_RECIPIENT: u64 = 2;
const BUYER: u64 = 3;

fn register_abc(reg: &mut Registry, ledger: &mut Ledger) {
    ledger.credit(OWNER, 2 * REGISTRATION_FEE);
    let r = initialize_ticker(
        reg,
        ledger,
        OWNER,
        FEE_RECIPIENT,
        "ABC".to_string(),
        "https://example.com".to_string(),
        "a ticker".to_string(),
        None,
        100,
    );
    assert_eq!(r, Ok(()));
}

#[test]
fn register_list_buy_scenario() {
    let mut ledger = Ledger::new();
    let mut reg = Registry::new();
    register_abc(&mut reg, &mut ledger);

    // The fee went from the owner to the fee recipient.
    assert_eq!(ledger.balance(OWNER), REGISTRATION_FEE);
    assert_eq!(ledger.balance(FEE_RECIPIENT), REGISTRATION_FEE);

    let key = "ABC".to_string();
    let rec = reg.get(&key).unwrap();
    assert_eq!(rec.owner, OWNER);
    assert!(!rec.is_for_sale);
    assert_eq!(rec.price, 0);
    assert_eq!(rec.created_at, 100);

    assert_eq!(list_for_sale(&mut reg, &key, OWNER, 1000), Ok(()));
    let rec = reg.get(&key).unwrap();
    assert!(rec.is_for_sale);
    assert_eq!(rec.price, 1000);

    ledger.credit(BUYER, 5_000);
    let owner_before = ledger.balance(OWNER);
    assert_eq!(buy_ticker(&mut reg, &mut ledger, &key, BUYER), Ok(()));
    let rec = reg.get(&key).unwrap();
    assert_eq!(rec.owner, BUYER);
    assert!(!rec.is_for_sale);
    assert_eq!(rec.price, 0);
    assert_eq!(ledger.balance(OWNER), owner_before + 1000);
    assert_eq!(ledger.balance(BUYER), 4_000);
}

#[test]
fn register_validates_field_lengths() {
    let mut ledger = Ledger::new();
    let mut reg = Registry::new();
    ledger.credit(OWNER, 10 * REGISTRATION_FEE);

    let r = initialize_ticker(
        &mut reg,
        &mut ledger,
        OWNER,
        FEE_RECIPIENT,
        "A".repeat(21),
        "u".to_string(),
        "d".to_string(),
        None,
        0,
    );
    assert_eq!(r, Err(Failure::Program(ErrorCode::TickerTooLong)));

    let r = initialize_ticker(
        &mut reg,
        &mut ledger,
        OWNER,
        FEE_RECIPIENT,
        "AB".to_string(),
        "u".repeat(201),
        "d".to_string(),
        None,
        0,
    );
    assert_eq!(r, Err(Failure::Program(ErrorCode::UrlTooLong)));

    let r = initialize_ticker(
        &mut reg,
        &mut ledger,
        OWNER,
        FEE_RECIPIENT,
        "AB".to_string(),
        "u".to_string(),
        "d".repeat(501),
        None,
        0,
    );
    assert_eq!(r, Err(Failure::Program(ErrorCode::DescriptionTooLong)));

    // A failed registration charged no fee and created nothing.
    assert_eq!(ledger.balance(OWNER), 10 * REGISTRATION_FEE);
    assert!(reg.get(&"AB".to_string()).is_none());
}

#[test]
fn duplicate_registration_is_rejected() {
    let mut ledger = Ledger::new();
    let mut reg = Registry::new();
    register_abc(&mut reg, &mut ledger);

    ledger.credit(BUYER, REGISTRATION_FEE);
    let r = initialize_ticker(
        &mut reg,
        &mut ledger,
        BUYER,
        FEE_RECIPIENT,
        "ABC".to_string(),
        "other".to_string(),
        "other".to_string(),
        None,
        200,
    );
    assert_eq!(r, Err(Failure::Runtime(RuntimeError::AccountAlreadyExists)));
    // The winner's record is untouched.
    assert_eq!(reg.get(&"ABC".to_string()).unwrap().owner, OWNER);
    assert_eq!(ledger.balance(BUYER), REGISTRATION_FEE);
}

#[test]
fn registration_needs_the_fee() {
    let mut ledger = Ledger::new();
    let mut reg = Registry::new();
    ledger.credit(OWNER, REGISTRATION_FEE - 1);
    let r = initialize_ticker(
        &mut reg,
        &mut ledger,
        OWNER,
        FEE_RECIPIENT,
        "ABC".to_string(),
        "u".to_string(),
        "d".to_string(),
        None,
        0,
    );
    assert_eq!(r, Err(Failure::Runtime(RuntimeError::InsufficientFunds)));
    assert!(reg.get(&"ABC".to_string()).is_none());
}

#[test]
fn update_is_owner_only_and_partial() {
    let mut ledger = Ledger::new();
    let mut reg = Registry::new();
    register_abc(&mut reg, &mut ledger);
    let key = "ABC".to_string();

    let r = update_ticker(&mut reg, &key, BUYER, Some("x".to_string()), None, None);
    assert_eq!(r, Err(Failure::Runtime(RuntimeError::NotAuthorized)));

    let r = update_ticker(
        &mut reg,
        &key,
        OWNER,
        Some("https://new.example.com".to_string()),
        None,
        Some("0xdeadbeef".to_string()),
    );
    assert_eq!(r, Ok(()));
    let rec = reg.get(&key).unwrap();
    assert_eq!(rec.target_url, "https://new.example.com");
    assert_eq!(rec.description, "a ticker");
    assert_eq!(rec.contract_address, Some("0xdeadbeef".to_string()));

    // Supplying no contract address leaves the stored one set: it is
    // never clearable.
    let r = update_ticker(&mut reg, &key, OWNER, None, Some("new text".to_string()), None);
    assert_eq!(r, Ok(()));
    let rec = reg.get(&key).unwrap();
    assert_eq!(rec.description, "new text");
    assert_eq!(rec.contract_address, Some("0xdeadbeef".to_string()));

    let r = update_ticker(&mut reg, &key, OWNER, Some("u".repeat(201)), None, None);
    assert_eq!(r, Err(Failure::Program(ErrorCode::UrlTooLong)));
    let r = update_ticker(&mut reg, &key, OWNER, None, Some("d".repeat(501)), None);
    assert_eq!(r, Err(Failure::Program(ErrorCode::DescriptionTooLong)));
}

#[test]
fn cancel_sale_resets_and_is_idempotent() {
    let mut ledger = Ledger::new();
    let mut reg = Registry::new();
    register_abc(&mut reg, &mut ledger);
    let key = "ABC".to_string();

    assert_eq!(list_for_sale(&mut reg, &key, OWNER, 777), Ok(()));
    assert_eq!(
        cancel_sale(&mut reg, &key, BUYER),
        Err(Failure::Runtime(RuntimeError::NotAuthorized))
    );
    assert_eq!(cancel_sale(&mut reg, &key, OWNER), Ok(()));
    let rec = reg.get(&key).unwrap();
    assert!(!rec.is_for_sale);
    assert_eq!(rec.price, 0);

    // Cancelling again is a safe no-op landing in the same state.
    assert_eq!(cancel_sale(&mut reg, &key, OWNER), Ok(()));
    let rec = reg.get(&key).unwrap();
    assert!(!rec.is_for_sale);
    assert_eq!(rec.price, 0);
    assert_eq!(rec.owner, OWNER);
}

#[test]
fn buy_requires_listing() {
    let mut ledger = Ledger::new();
    let mut reg = Registry::new();
    register_abc(&mut reg, &mut ledger);
    let key = "ABC".to_string();

    ledger.credit(BUYER, 10_000);
    let r = buy_ticker(&mut reg, &mut ledger, &key, BUYER);
    assert_eq!(r, Err(Failure::Program(ErrorCode::NotForSale)));
    assert_eq!(ledger.balance(BUYER), 10_000);
    assert_eq!(reg.get(&key).unwrap().owner, OWNER);
}

#[test]
fn serialized_buyers_race_has_one_winner() {
    // The runtime serializes the two transactions; the second runs against
    // the winner's post-state and is rejected.
    let mut ledger = Ledger::new();
    let mut reg = Registry::new();
    register_abc(&mut reg, &mut ledger);
    let key = "ABC".to_string();
    assert_eq!(list_for_sale(&mut reg, &key, OWNER, 500), Ok(()));

    let second_buyer: u64 = 4;
    ledger.credit(BUYER, 500);
    ledger.credit(second_buyer, 500);

    assert_eq!(buy_ticker(&mut reg, &mut ledger, &key, BUYER), Ok(()));
    let r = buy_ticker(&mut reg, &mut ledger, &key, second_buyer);
    assert_eq!(r, Err(Failure::Program(ErrorCode::NotForSale)));

    // The loser observes the winner's post-state; no value moved for it.
    let rec = reg.get(&key).unwrap();
    assert_eq!(rec.owner, BUYER);
    assert!(!rec.is_for_sale);
    assert_eq!(ledger.balance(second_buyer), 500);
}

#[test]
fn buy_needs_the_price() {
    let mut ledger = Ledger::new();
    let mut reg = Registry::new();
    register_abc(&mut reg, &mut ledger);
    let key = "ABC".to_string();
    assert_eq!(list_for_sale(&mut reg, &key, OWNER, 1_000), Ok(()));
    ledger.credit(BUYER, 999);
    let r = buy_ticker(&mut reg, &mut ledger, &key, BUYER);
    assert_eq!(r, Err(Failure::Runtime(RuntimeError::InsufficientFunds)));
    assert_eq!(reg.get(&key).unwrap().owner, OWNER);
    assert!(reg.get(&key).unwrap().is_for_sale);
}

#[test]
fn zero_price_listing_is_a_free_transfer() {
    let mut ledger = Ledger::new();
    let mut reg = Registry::new();
    register_abc(&mut reg, &mut ledger);
    let key = "ABC".to_string();
    assert_eq!(list_for_sale(&mut reg, &key, OWNER, 0), Ok(()));
    // The buyer holds nothing at all and still takes the ticker.
    assert_eq!(buy_ticker(&mut reg, &mut ledger, &key, BUYER), Ok(()));
    assert_eq!(reg.get(&key).unwrap().owner, BUYER);
}
