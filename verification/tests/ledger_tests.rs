use token_ledger::ERC20;

#[test]
fn test_initial_supply() {
    let token = ERC20::new("Spawn Token", "SPN", 1000, 2000);
    assert_eq!(token.balance_of("owner"), 1000);
}

#[test]
fn test_transfer() {
    let mut token = ERC20::new("Spawn Token", "SPN", 1000, 2000);
    let success = token.transfer("owner", "user1", 200);
    assert!(success);
    assert_eq!(token.balance_of("user1"), 200);
    assert_eq!(token.balance_of("owner"), 800);
}

#[test]
fn test_approve_and_transfer_from() {
    let mut token = ERC20::new("Spawn Token", "SPN", 1000, 2000);
    token.approve("owner", "user1", 100);
    let success = token.transfer_from("owner", "user1", "user2", 50);
    assert!(success);
    assert_eq!(token.balance_of("user2"), 50);
    assert_eq!(token.allowance("owner", "user1"), 50);
}

#[test]
fn test_burn() {
    let mut token = ERC20::new("Spawn Token", "SPN", 1000, 2000);
    let success = token.burn("owner", 100);
    assert!(success);
    assert_eq!(token.total_supply(), 900);
    assert_eq!(token.balance_of("owner"), 900);
}

#[test]
fn test_mint() {
    let mut token = ERC20::new("Spawn Token", "SPN", 1000, 2000);
    let success = token.mint("user1", 200);
    assert!(success);
    assert_eq!(token.total_supply(), 1200);
    assert_eq!(token.balance_of("user1"), 200);
}

#[test]
fn test_max_supply_limit() {
    let mut token = ERC20::new("Spawn Token", "SPN", 1000, 1500);
    let success = token.mint("user1", 600);
    assert!(!success);
    assert_eq!(token.total_supply(), 1000);
}

#[test]
fn test_name_and_symbol() {
    let token = ERC20::new("Spawn Token", "SPN", 1000, 2000);
    assert_eq!(token.name(), "Spawn Token");
    assert_eq!(token.symbol(), "SPN");
    assert_eq!(token.max_supply(), 2000);
}

#[test]
fn test_supply_equals_sum_of_balances() {
    let mut token = ERC20::new("Spawn Token", "SPN", 1000, 5000);
    token.transfer("owner", "user1", 300);
    token.transfer("user1", "user2", 100);
    token.mint("user3", 400);
    token.burn("owner", 50);
    let sum = token.balance_of("owner")
        + token.balance_of("user1")
        + token.balance_of("user2")
        + token.balance_of("user3");
    assert_eq!(token.total_supply(), sum);
}

#[test]
fn test_supply_stays_within_ceiling() {
    let mut token = ERC20::new("Spawn Token", "SPN", 1000, 1500);
    token.mint("user1", 400);
    token.mint("user1", 400);
    token.mint("user2", 100);
    token.burn("owner", 200);
    token.mint("user2", 100);
    assert!(token.total_supply() <= token.max_supply());
    assert_eq!(token.total_supply(), 1400);
}

#[test]
fn test_queries_are_repeatable() {
    let mut token = ERC20::new("Spawn Token", "SPN", 1000, 2000);
    token.approve("owner", "user1", 75);
    let b1 = token.balance_of("owner");
    let b2 = token.balance_of("owner");
    assert_eq!(b1, b2);
    let a1 = token.allowance("owner", "user1");
    let a2 = token.allowance("owner", "user1");
    assert_eq!(a1, a2);
    assert_eq!(token.total_supply(), token.total_supply());
}

#[test]
fn test_transfer_round_trip_restores_balances() {
    let mut token = ERC20::new("Spawn Token", "SPN", 1000, 2000);
    token.transfer("owner", "user1", 150);
    let owner_before = token.balance_of("owner");
    let user1_before = token.balance_of("user1");
    assert!(token.transfer("owner", "user1", 120));
    assert!(token.transfer("user1", "owner", 120));
    assert_eq!(token.balance_of("owner"), owner_before);
    assert_eq!(token.balance_of("user1"), user1_before);
}

#[test]
fn test_self_transfer_always_rejects() {
    let mut token = ERC20::new("Spawn Token", "SPN", 1000, 2000);
    assert!(!token.transfer("owner", "owner", 1));
    assert!(!token.transfer("owner", "owner", 500));
    assert_eq!(token.balance_of("owner"), 1000);
}

#[test]
fn test_self_approve_always_rejects() {
    let mut token = ERC20::new("Spawn Token", "SPN", 1000, 2000);
    assert!(!token.approve("owner", "owner", 100));
    assert_eq!(token.allowance("owner", "owner"), 0);
}

#[test]
fn test_zero_amount_transfer_rejects() {
    let mut token = ERC20::new("Spawn Token", "SPN", 1000, 2000);
    assert!(!token.transfer("owner", "user1", 0));
    assert_eq!(token.balance_of("owner"), 1000);
    assert_eq!(token.balance_of("user1"), 0);
}

#[test]
fn test_insufficient_balance_rejects() {
    let mut token = ERC20::new("Spawn Token", "SPN", 1000, 2000);
    assert!(!token.transfer("owner", "user1", 1001));
    assert_eq!(token.balance_of("owner"), 1000);
    assert_eq!(token.balance_of("user1"), 0);
}

#[test]
fn test_unseen_accounts_hold_zero() {
    let mut token = ERC20::new("Spawn Token", "SPN", 1000, 2000);
    assert_eq!(token.balance_of("stranger"), 0);
    assert_eq!(token.allowance("stranger", "user1"), 0);
    assert!(!token.transfer("stranger", "user1", 1));
    assert!(!token.transfer_from("stranger", "user1", "user2", 1));
    assert!(!token.burn("stranger", 1));
    assert!(token.burn("stranger", 0));
    assert_eq!(token.total_supply(), 1000);
}

#[test]
fn test_approve_replaces_prior_allowance() {
    let mut token = ERC20::new("Spawn Token", "SPN", 1000, 2000);
    assert!(token.approve("owner", "user1", 100));
    assert!(token.approve("owner", "user1", 40));
    assert_eq!(token.allowance("owner", "user1"), 40);
}

#[test]
fn test_transfer_from_insufficient_allowance_rejects() {
    let mut token = ERC20::new("Spawn Token", "SPN", 1000, 2000);
    token.approve("owner", "user1", 30);
    assert!(!token.transfer_from("owner", "user1", "user2", 31));
    assert_eq!(token.balance_of("user2"), 0);
    assert_eq!(token.allowance("owner", "user1"), 30);
}

#[test]
fn test_transfer_from_back_to_owner_rejects() {
    let mut token = ERC20::new("Spawn Token", "SPN", 1000, 2000);
    token.approve("owner", "user1", 100);
    assert!(!token.transfer_from("owner", "user1", "owner", 50));
    assert_eq!(token.balance_of("owner"), 1000);
    assert_eq!(token.allowance("owner", "user1"), 100);
}

#[test]
fn test_burn_insufficient_balance_rejects() {
    let mut token = ERC20::new("Spawn Token", "SPN", 1000, 2000);
    assert!(!token.burn("owner", 1001));
    assert_eq!(token.total_supply(), 1000);
    assert_eq!(token.balance_of("owner"), 1000);
}

#[test]
fn test_mint_to_exact_ceiling_succeeds() {
    let mut token = ERC20::new("Spawn Token", "SPN", 1000, 1500);
    assert!(token.mint("user1", 500));
    assert_eq!(token.total_supply(), 1500);
    assert!(!token.mint("user1", 1));
}

#[test]
fn test_mint_overflow_is_rejected() {
    let mut token = ERC20::new("Spawn Token", "SPN", 5, u64::MAX);
    assert!(!token.mint("user1", u64::MAX));
    assert_eq!(token.total_supply(), 5);
    assert_eq!(token.balance_of("user1"), 0);
}

#[test]
fn test_transfer_to_existing_account_accumulates() {
    let mut token = ERC20::new("Spawn Token", "SPN", 1000, 2000);
    assert!(token.transfer("owner", "user1", 200));
    assert!(token.transfer("owner", "user1", 100));
    assert_eq!(token.balance_of("user1"), 300);
    assert_eq!(token.balance_of("owner"), 700);
}
