use mns::pubkey::Pubkey;
use mns::registry::{
    initialize, register_name, renew_name, set_resolver, transfer_name, update_fee, Initialize,
    MnsError, RegisterName, RegistryAccounts, RenewName, SetResolver, TransferName, UpdateRegistry,
    DEFAULT_FEE_LAMPORTS, SECONDS_PER_YEAR,
};

const NOW: i64 = 1_700_000_000;

fn key(b: u8) -> Pubkey {
    Pubkey::from_byte(b)
}

fn setup() -> RegistryAccounts {
    let mut acc = RegistryAccounts::new();
    initialize(&mut acc, &Initialize { authority: key(9), now: NOW }).unwrap();
    acc
}

fn reg_ctx(owner: u8) -> RegisterName {
    RegisterName { owner: key(owner), treasury: key(7), now: NOW }
}

fn register(acc: &mut RegistryAccounts, owner: u8, name: &str) -> Result<(), MnsError> {
    register_name(acc, &reg_ctx(owner), name.to_string()).map(|_| ())
}

#[test]
fn initialize_sets_defaults() {
    let mut acc = RegistryAccounts::new();
    let ev = initialize(&mut acc, &Initialize { authority: key(9), now: NOW }).unwrap();
    assert_eq!(ev.authority, key(9));
    assert_eq!(ev.timestamp, NOW);
    let reg = acc.registry().unwrap();
    assert_eq!(reg.authority, key(9));
    assert_eq!(reg.total_registered, 0);
    assert_eq!(reg.fee_lamports, 100_000_000);
    assert_eq!(DEFAULT_FEE_LAMPORTS, 100_000_000);
}

#[test]
fn initialize_twice_fails() {
    let mut acc = setup();
    let r = initialize(&mut acc, &Initialize { authority: key(1), now: NOW });
    assert_eq!(r.unwrap_err(), MnsError::AlreadyInUse);
    assert_eq!(acc.registry().unwrap().authority, key(9));
}

#[test]
fn register_before_initialize_fails() {
    let mut acc = RegistryAccounts::new();
    assert_eq!(register(&mut acc, 1, "alice"), Err(MnsError::AccountNotFound));
    assert_eq!(acc.len(), 0);
}

#[test]
fn register_creates_record_and_charges_fee() {
    let mut acc = setup();
    let (ev, fee) = register_name(&mut acc, &reg_ctx(1), "alice".to_string()).unwrap();
    assert_eq!(ev.name, "alice");
    assert_eq!(ev.owner, key(1));
    assert_eq!(ev.expires_at, NOW + 31_536_000);
    assert_eq!(fee.from, key(1));
    assert_eq!(fee.to, key(7));
    assert_eq!(fee.lamports, 100_000_000);
    let rec = acc.record("alice").unwrap();
    assert_eq!(rec.name, "alice");
    assert_eq!(rec.owner, key(1));
    assert_eq!(rec.resolver, Pubkey::zero());
    assert_eq!(rec.registered_at, NOW);
    assert_eq!(rec.expires_at, NOW + SECONDS_PER_YEAR);
    assert_eq!(acc.registry().unwrap().total_registered, 1);
}

#[test]
fn register_twice_fails_with_uniqueness_error() {
    let mut acc = setup();
    assert_eq!(register(&mut acc, 1, "bob_42"), Ok(()));
    assert_eq!(register(&mut acc, 2, "bob_42"), Err(MnsError::AlreadyInUse));
    assert_eq!(register(&mut acc, 1, "bob_42"), Err(MnsError::AlreadyInUse));
    assert_eq!(acc.len(), 1);
    assert_eq!(acc.record("bob_42").unwrap().owner, key(1));
    assert_eq!(acc.registry().unwrap().total_registered, 1);
}

#[test]
fn register_accepts_boundary_lengths() {
    let mut acc = setup();
    assert_eq!(register(&mut acc, 1, "abc"), Ok(()));
    assert_eq!(register(&mut acc, 1, "abcdefghijkl"), Ok(()));
    assert_eq!(register(&mut acc, 1, "a_0_z_9"), Ok(()));
    assert_eq!(acc.registry().unwrap().total_registered, 3);
}

#[test]
fn register_rejects_bad_lengths() {
    let mut acc = setup();
    assert_eq!(register(&mut acc, 1, ""), Err(MnsError::InvalidNameLength));
    assert_eq!(register(&mut acc, 1, "ab"), Err(MnsError::InvalidNameLength));
    assert_eq!(register(&mut acc, 1, "abcdefghijklm"), Err(MnsError::InvalidNameLength));
    assert_eq!(register(&mut acc, 1, "AB"), Err(MnsError::InvalidNameLength));
    assert_eq!(acc.len(), 0);
    assert_eq!(acc.registry().unwrap().total_registered, 0);
}

#[test]
fn register_rejects_bad_characters() {
    let mut acc = setup();
    assert_eq!(register(&mut acc, 1, "Alice"), Err(MnsError::InvalidNameCharacters));
    assert_eq!(register(&mut acc, 1, "al ice"), Err(MnsError::InvalidNameCharacters));
    assert_eq!(register(&mut acc, 1, "al-ice"), Err(MnsError::InvalidNameCharacters));
    assert_eq!(register(&mut acc, 1, "alice!"), Err(MnsError::InvalidNameCharacters));
    assert_eq!(register(&mut acc, 1, "caf\u{e9}"), Err(MnsError::InvalidNameCharacters));
    assert_eq!(acc.len(), 0);
    assert!(acc.record("Alice").is_none());
}

#[test]
fn register_overflowing_expiry_fails() {
    let mut acc = setup();
    let ctx = RegisterName { owner: key(1), treasury: key(7), now: i64::MAX - 10 };
    let r = register_name(&mut acc, &ctx, "alice".to_string());
    assert_eq!(r.unwrap_err(), MnsError::ArithmeticOverflow);
    assert_eq!(acc.len(), 0);
}

#[test]
fn renew_extends_by_whole_years() {
    for years in 1u8..=5 {
        let mut acc = setup();
        register(&mut acc, 1, "alice").unwrap();
        let before = acc.record("alice").unwrap().expires_at;
        let ctx = RenewName { owner: key(1), treasury: key(7) };
        let (ev, fee) = renew_name(&mut acc, &ctx, "alice".to_string(), years).unwrap();
        let after = acc.record("alice").unwrap().expires_at;
        assert_eq!(after - before, years as i64 * 31_536_000);
        assert_eq!(ev.new_expiry, after);
        assert_eq!(ev.name, "alice");
        assert_eq!(fee.lamports, 100_000_000 * years as u64);
        assert_eq!(fee.from, key(1));
        assert_eq!(fee.to, key(7));
    }
}

#[test]
fn renew_rejects_bad_periods() {
    let mut acc = setup();
    register(&mut acc, 1, "alice").unwrap();
    let before = acc.record("alice").unwrap().expires_at;
    let ctx = RenewName { owner: key(1), treasury: key(7) };
    let r0 = renew_name(&mut acc, &ctx, "alice".to_string(), 0);
    assert_eq!(r0.unwrap_err(), MnsError::InvalidRenewalPeriod);
    let r6 = renew_name(&mut acc, &ctx, "alice".to_string(), 6);
    assert_eq!(r6.unwrap_err(), MnsError::InvalidRenewalPeriod);
    assert_eq!(acc.record("alice").unwrap().expires_at, before);
}

#[test]
fn renew_fee_overflow_fails() {
    let mut acc = setup();
    register(&mut acc, 1, "alice").unwrap();
    update_fee(&mut acc, &UpdateRegistry { authority: key(9) }, u64::MAX).unwrap();
    let before = acc.record("alice").unwrap().expires_at;
    let ctx = RenewName { owner: key(1), treasury: key(7) };
    let r = renew_name(&mut acc, &ctx, "alice".to_string(), 2);
    assert_eq!(r.unwrap_err(), MnsError::ArithmeticOverflow);
    assert_eq!(acc.record("alice").unwrap().expires_at, before);
    let (_, fee) = renew_name(&mut acc, &ctx, "alice".to_string(), 1).unwrap();
    assert_eq!(fee.lamports, u64::MAX);
}

#[test]
fn renew_unknown_name_fails() {
    let mut acc = setup();
    let ctx = RenewName { owner: key(1), treasury: key(7) };
    let r = renew_name(&mut acc, &ctx, "nobody".to_string(), 1);
    assert_eq!(r.unwrap_err(), MnsError::AccountNotFound);
}

#[test]
fn transfer_by_non_owner_fails() {
    let mut acc = setup();
    register(&mut acc, 1, "alice").unwrap();
    let ctx = TransferName { owner: key(2), new_owner: key(2) };
    let r = transfer_name(&mut acc, &ctx, "alice".to_string());
    assert_eq!(r.unwrap_err(), MnsError::NotOwner);
    assert_eq!(acc.record("alice").unwrap().owner, key(1));
}

#[test]
fn transfer_by_owner_moves_control() {
    let mut acc = setup();
    register(&mut acc, 1, "alice").unwrap();
    let before = acc.record("alice").unwrap();
    let ev = transfer_name(&mut acc, &TransferName { owner: key(1), new_owner: key(2) }, "alice".to_string())
        .unwrap();
    assert_eq!(ev.name, "alice");
    assert_eq!(ev.from, key(1));
    assert_eq!(ev.to, key(2));
    let after = acc.record("alice").unwrap();
    assert_eq!(after.owner, key(2));
    assert_eq!(after.expires_at, before.expires_at);
    assert_eq!(after.resolver, before.resolver);
    let r = set_resolver(&mut acc, &SetResolver { owner: key(1) }, "alice".to_string(), key(5));
    assert_eq!(r.unwrap_err(), MnsError::NotOwner);
    let r = transfer_name(&mut acc, &TransferName { owner: key(1), new_owner: key(1) }, "alice".to_string());
    assert_eq!(r.unwrap_err(), MnsError::NotOwner);
}

#[test]
fn set_resolver_by_owner() {
    let mut acc = setup();
    register(&mut acc, 1, "alice").unwrap();
    let ev = set_resolver(&mut acc, &SetResolver { owner: key(1) }, "alice".to_string(), key(5)).unwrap();
    assert_eq!(ev.name, "alice");
    assert_eq!(ev.resolver, key(5));
    assert_eq!(acc.record("alice").unwrap().resolver, key(5));
    let r = set_resolver(&mut acc, &SetResolver { owner: key(2) }, "alice".to_string(), key(6));
    assert_eq!(r.unwrap_err(), MnsError::NotOwner);
    assert_eq!(acc.record("alice").unwrap().resolver, key(5));
    let r = set_resolver(&mut acc, &SetResolver { owner: key(1) }, "nobody".to_string(), key(6));
    assert_eq!(r.unwrap_err(), MnsError::AccountNotFound);
}

#[test]
fn update_fee_by_authority_only() {
    let mut acc = setup();
    let r = update_fee(&mut acc, &UpdateRegistry { authority: key(1) }, 5);
    assert_eq!(r, Err(MnsError::Unauthorized));
    assert_eq!(acc.registry().unwrap().fee_lamports, 100_000_000);
    assert_eq!(update_fee(&mut acc, &UpdateRegistry { authority: key(9) }, 5), Ok(()));
    assert_eq!(acc.registry().unwrap().fee_lamports, 5);
    let (_, fee) = register_name(&mut acc, &reg_ctx(1), "alice".to_string()).unwrap();
    assert_eq!(fee.lamports, 5);
    assert_eq!(update_fee(&mut acc, &UpdateRegistry { authority: key(9) }, 0), Ok(()));
    assert_eq!(acc.registry().unwrap().fee_lamports, 0);
}

#[test]
fn end_to_end_alice_to_bob() {
    let alice = key(1);
    let bob = key(2);
    let treasury = key(7);
    let mut acc = RegistryAccounts::new();
    initialize(&mut acc, &Initialize { authority: key(9), now: NOW }).unwrap();
    let ctx = RegisterName { owner: alice, treasury, now: NOW };
    let (_, fee) = register_name(&mut acc, &ctx, "alice".to_string()).unwrap();
    assert_eq!(fee.lamports, 100_000_000);
    assert_eq!(acc.registry().unwrap().total_registered, 1);
    let rec = acc.record("alice").unwrap();
    assert_eq!(rec.expires_at, rec.registered_at + 31_536_000);

    let (_, fee) = renew_name(&mut acc, &RenewName { owner: alice, treasury }, "alice".to_string(), 2).unwrap();
    assert_eq!(fee.lamports, 200_000_000);
    assert_eq!(acc.record("alice").unwrap().expires_at, rec.expires_at + 63_072_000);

    transfer_name(&mut acc, &TransferName { owner: alice, new_owner: bob }, "alice".to_string()).unwrap();
    let r = renew_name(&mut acc, &RenewName { owner: alice, treasury }, "alice".to_string(), 1);
    assert_eq!(r.unwrap_err(), MnsError::NotOwner);
    let (ev, fee) = renew_name(&mut acc, &RenewName { owner: bob, treasury }, "alice".to_string(), 1).unwrap();
    assert_eq!(fee.from, bob);
    assert_eq!(ev.new_expiry, rec.expires_at + 63_072_000 + 31_536_000);
}

fn stored(name: &str, owner: u8) -> mns::registry::NameRecord {
    mns::registry::NameRecord {
        name: name.to_string(),
        owner: key(owner),
        resolver: Pubkey::zero(),
        registered_at: NOW,
        expires_at: NOW + SECONDS_PER_YEAR,
    }
}

#[test]
fn from_parts_checks_stored_records() {
    let reg = setup().registry();
    let acc = RegistryAccounts::from_parts(reg, vec![stored("alice", 1), stored("bob", 2)]).unwrap();
    assert_eq!(acc.len(), 2);
    assert_eq!(acc.record("bob").unwrap().owner, key(2));
    assert!(RegistryAccounts::from_parts(reg, vec![stored("alice", 1), stored("alice", 2)]).is_none());
    assert!(RegistryAccounts::from_parts(reg, vec![stored("Alice", 1)]).is_none());
    assert!(RegistryAccounts::from_parts(reg, vec![stored("al", 1)]).is_none());
    let (r, records) = acc.into_parts();
    assert_eq!(r.unwrap().fee_lamports, 100_000_000);
    assert_eq!(records.len(), 2);
    assert_eq!(records[0].name, "alice");
}
