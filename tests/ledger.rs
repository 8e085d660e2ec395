use token_ledger::{Token, TokenError};

fn s(x: &str) -> String {
    x.to_string()
}

fn balance(t: &Token, id: &str) -> Option<u64> {
    t.balance_of(&s(id))
}

#[test]
fn demo_scenario() {
    let mut t = Token::new(1000000, 2, s("owner_address"));
    assert_eq!(t.mint(500, s("owner_address")), Ok(()));
    assert_eq!(balance(&t, "owner_address"), Some(1000500));
    assert_eq!(t.total_supply(), 1000500);
    assert_eq!(t.change_owner(s("new_owner_address"), s("owner_address")), Ok(()));
    assert_eq!(t.owner(), "new_owner_address");
    assert_eq!(t.change_decimals(4, s("owner_address")), Err(TokenError::NotAuthorized));
    assert_eq!(t.decimals(), 2);
    assert_eq!(t.transfer(s("recipient_address"), 100, s("owner_address")), Ok(()));
    assert_eq!(balance(&t, "owner_address"), Some(1000400));
    assert_eq!(balance(&t, "recipient_address"), Some(100));
    assert_eq!(t.total_supply(), 1000500);
}

#[test]
fn new_credits_whole_supply_to_owner() {
    let t = Token::new(42, 7, s("alice"));
    assert_eq!(t.total_supply(), 42);
    assert_eq!(t.decimals(), 7);
    assert_eq!(t.owner(), "alice");
    assert_eq!(t.locked_until(), None);
    assert_eq!(balance(&t, "alice"), Some(42));
    assert_eq!(balance(&t, "bob"), None);
}

#[test]
fn new_with_zero_supply() {
    let t = Token::new(0, 0, s(""));
    assert_eq!(t.total_supply(), 0);
    assert_eq!(balance(&t, ""), Some(0));
}

#[test]
fn mint_adds_to_supply_and_owner_only() {
    let mut t = Token::new(1000, 2, s("alice"));
    assert_eq!(t.transfer(s("bob"), 300, s("alice")), Ok(()));
    assert_eq!(t.mint_at(250, s("alice"), 0), Ok(()));
    assert_eq!(t.total_supply(), 1250);
    assert_eq!(balance(&t, "alice"), Some(950));
    assert_eq!(balance(&t, "bob"), Some(300));
}

#[test]
fn mint_to_owner_without_entry_creates_it() {
    let mut t = Token::new(10, 0, s("alice"));
    assert_eq!(t.change_owner(s("carol"), s("alice")), Ok(()));
    assert_eq!(t.mint_at(5, s("carol"), 0), Ok(()));
    assert_eq!(balance(&t, "carol"), Some(5));
    assert_eq!(balance(&t, "alice"), Some(10));
    assert_eq!(t.total_supply(), 15);
}

#[test]
fn mint_past_u64_max_is_refused() {
    let mut t = Token::new(u64::MAX - 1, 0, s("alice"));
    assert_eq!(t.mint_at(2, s("alice"), 0), Err(TokenError::Overflow));
    assert_eq!(t.total_supply(), u64::MAX - 1);
    assert_eq!(balance(&t, "alice"), Some(u64::MAX - 1));
    assert_eq!(t.mint_at(1, s("alice"), 0), Ok(()));
    assert_eq!(t.total_supply(), u64::MAX);
}

#[test]
fn non_owner_is_refused_and_nothing_changes() {
    let mut t = Token::with_lock_until(500, 3, s("alice"), Some(100));
    assert_eq!(t.mint_at(10, s("mallory"), 200), Err(TokenError::NotAuthorized));
    assert_eq!(t.mint_at(10, s("mallory"), 50), Err(TokenError::NotAuthorized));
    assert_eq!(t.mint(10, s("mallory")), Err(TokenError::NotAuthorized));
    assert_eq!(t.change_owner(s("mallory"), s("mallory")), Err(TokenError::NotAuthorized));
    assert_eq!(t.change_decimals(9, s("mallory")), Err(TokenError::NotAuthorized));
    assert_eq!(t.total_supply(), 500);
    assert_eq!(t.decimals(), 3);
    assert_eq!(t.owner(), "alice");
    assert_eq!(t.locked_until(), Some(100));
    assert_eq!(balance(&t, "alice"), Some(500));
    assert_eq!(balance(&t, "mallory"), None);
}

#[test]
fn lock_refuses_mint_before_its_time() {
    let mut t = Token::with_lock_until(100, 0, s("alice"), Some(1000));
    assert_eq!(t.mint_at(5, s("alice"), 0), Err(TokenError::TransferLocked));
    assert_eq!(t.mint_at(5, s("alice"), 999), Err(TokenError::TransferLocked));
    assert_eq!(t.total_supply(), 100);
    assert_eq!(t.mint_at(5, s("alice"), 1000), Ok(()));
    assert_eq!(t.mint_at(5, s("alice"), 1001), Ok(()));
    assert_eq!(t.total_supply(), 110);
    assert_eq!(balance(&t, "alice"), Some(110));
}

#[test]
fn lock_does_not_gate_administration_or_transfer() {
    let mut t = Token::with_lock_until(100, 0, s("alice"), Some(u64::MAX));
    assert_eq!(t.change_decimals(6, s("alice")), Ok(()));
    assert_eq!(t.decimals(), 6);
    assert_eq!(t.transfer(s("bob"), 40, s("alice")), Ok(()));
    assert_eq!(t.change_owner(s("bob"), s("alice")), Ok(()));
    assert_eq!(t.owner(), "bob");
    assert_eq!(balance(&t, "alice"), Some(60));
    assert_eq!(balance(&t, "bob"), Some(40));
}

#[test]
fn mint_reads_the_system_clock_for_the_lock() {
    let mut locked = Token::with_lock_until(1, 0, s("alice"), Some(u64::MAX));
    assert_eq!(locked.mint(1, s("alice")), Err(TokenError::TransferLocked));
    assert_eq!(locked.total_supply(), 1);
    let mut expired = Token::with_lock_until(1, 0, s("alice"), Some(1));
    assert_eq!(expired.mint(1, s("alice")), Ok(()));
    assert_eq!(expired.total_supply(), 2);
    let mut unlocked = Token::new(1, 0, s("alice"));
    assert_eq!(unlocked.mint(3, s("alice")), Ok(()));
    assert_eq!(balance(&unlocked, "alice"), Some(4));
}

#[test]
fn transfer_of_whole_balance_empties_sender() {
    let mut t = Token::new(1000, 0, s("alice"));
    assert_eq!(t.transfer(s("bob"), 1000, s("alice")), Ok(()));
    assert_eq!(balance(&t, "alice"), Some(0));
    assert_eq!(balance(&t, "bob"), Some(1000));
    assert_eq!(t.transfer(s("carol"), 0, s("alice")), Ok(()));
    assert_eq!(balance(&t, "carol"), Some(0));
}

#[test]
fn transfer_of_one_more_than_balance_is_refused() {
    let mut t = Token::new(1000, 0, s("alice"));
    assert_eq!(t.transfer(s("bob"), 1001, s("alice")), Err(TokenError::InsufficientBalance));
    assert_eq!(balance(&t, "alice"), Some(1000));
    assert_eq!(balance(&t, "bob"), None);
    assert_eq!(t.transfer(s("bob"), 1, s("alice")), Ok(()));
    assert_eq!(t.transfer(s("carol"), 2, s("bob")), Err(TokenError::InsufficientBalance));
    assert_eq!(balance(&t, "bob"), Some(1));
}

#[test]
fn transfer_from_unknown_sender_is_invalid() {
    let mut t = Token::new(1000, 0, s("alice"));
    assert_eq!(t.transfer(s("alice"), 0, s("ghost")), Err(TokenError::InvalidOperation));
    assert_eq!(t.transfer(s("bob"), 5, s("ghost")), Err(TokenError::InvalidOperation));
    assert_eq!(balance(&t, "ghost"), None);
    assert_eq!(balance(&t, "bob"), None);
    assert_eq!(balance(&t, "alice"), Some(1000));
}

#[test]
fn self_transfer_keeps_balance() {
    let mut t = Token::new(70, 0, s("alice"));
    assert_eq!(t.transfer(s("alice"), 70, s("alice")), Ok(()));
    assert_eq!(balance(&t, "alice"), Some(70));
    assert_eq!(t.transfer(s("alice"), 71, s("alice")), Err(TokenError::InsufficientBalance));
    assert_eq!(t.total_supply(), 70);
}

#[test]
fn transfers_conserve_supply() {
    let ids = ["alice", "bob", "carol", "dave"];
    let mut t = Token::new(10_000, 2, s("alice"));
    let calls: [(&str, u64, &str); 7] = [
        ("bob", 2_500, "alice"),
        ("carol", 1_000, "bob"),
        ("alice", 400, "carol"),
        ("dave", 9_000, "alice"),
        ("dave", 1, "erin"),
        ("bob", 600, "carol"),
        ("carol", 7_500, "alice"),
    ];
    for (to, amount, caller) in calls {
        let _ = t.transfer(s(to), amount, s(caller));
        let sum: u64 = ids.iter().map(|id| balance(&t, id).unwrap_or(0)).sum();
        assert_eq!(sum, t.total_supply());
        assert_eq!(t.total_supply(), 10_000);
    }
    assert_eq!(balance(&t, "alice"), Some(400));
    assert_eq!(balance(&t, "bob"), Some(2_100));
    assert_eq!(balance(&t, "carol"), Some(7_500));
    assert_eq!(balance(&t, "dave"), None);
}

#[test]
fn owner_change_leaves_balances() {
    let mut t = Token::new(5, 1, s("alice"));
    assert_eq!(t.change_owner(s("alice"), s("alice")), Ok(()));
    assert_eq!(t.change_owner(s(""), s("alice")), Ok(()));
    assert_eq!(t.owner(), "");
    assert_eq!(t.mint_at(1, s("alice"), 0), Err(TokenError::NotAuthorized));
    assert_eq!(t.change_decimals(255, s("")), Ok(()));
    assert_eq!(t.decimals(), 255);
    assert_eq!(balance(&t, "alice"), Some(5));
}
