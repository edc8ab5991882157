use degen_pools::crypto::verify_digest;
use degen_pools::errors::CustomError;
use degen_pools::state::Entry;
use degen_pools::state::Ledger;
use degen_pools::state::Pool;
use degen_pools::state::PoolOption;

fn admin() -> Vec<u8> {
    vec![1u8; 32]
}

fn program_id() -> Vec<u8> {
    vec![7u8; 32]
}

fn participant(tag: u8) -> Vec<u8> {
    vec![tag; 32]
}

fn sha(bytes: &[u8]) -> Vec<u8> {
    anchor_lang::solana_program::hash::hash(bytes)
        .to_bytes()
        .to_vec()
}

fn base58(addr: &[u8]) -> Vec<u8> {
    let arr: [u8; 32] = addr.try_into().unwrap();
    anchor_lang::solana_program::pubkey::Pubkey::new_from_array(arr)
        .to_string()
        .into_bytes()
}

fn new_ledger() -> Ledger {
    Ledger::new(admin(), program_id())
}

fn make_pool(l: &mut Ledger, title: &str) -> Vec<u8> {
    l.create_pool(
        &admin(),
        title.as_bytes().to_vec(),
        sha(title.as_bytes()),
        &Vec::new(),
        &Vec::new(),
    )
    .unwrap()
}

fn option_digest(pool_addr: &[u8], title: &str) -> Vec<u8> {
    let mut input = base58(pool_addr);
    input.extend_from_slice(title.as_bytes());
    sha(&input)
}

fn make_option(l: &mut Ledger, pool_addr: &Vec<u8>, title: &str) -> Vec<u8> {
    let digest = option_digest(pool_addr, title);
    l.create_option(&admin(), pool_addr, title.as_bytes().to_vec(), digest)
        .unwrap()
}

#[test]
fn digest_verifier_agrees_with_host_hash() {
    assert!(verify_digest(&b"Alpha".to_vec(), &sha(b"Alpha")));
    assert!(!verify_digest(&b"Alpha".to_vec(), &sha(b"Beta")));
    // The digest of a text is never the text itself.
    assert!(!verify_digest(&b"Alpha".to_vec(), &b"Alpha".to_vec()));
}

#[test]
fn new_ledger_is_empty() {
    let l = new_ledger();
    assert_eq!(l.admin, admin());
    assert_eq!(l.program_id, program_id());
    assert!(l.pools.is_empty());
}

#[test]
fn create_pool_accepts_matching_digest() {
    let mut l = new_ledger();
    let r = l.create_pool(
        &admin(),
        b"Alpha".to_vec(),
        sha(b"Alpha"),
        &Vec::new(),
        &Vec::new(),
    );
    let addr = r.unwrap();
    assert_eq!(addr.len(), 32);
    assert_eq!(l.pools.len(), 1);
    assert_eq!(l.pools[0].addr, addr);
    assert_eq!(l.pools[0].title, b"Alpha".to_vec());
    assert!(!l.pools[0].is_paused);
    assert!(l.pools[0].winning_option.is_none());
    assert_eq!(l.pools[0].value, 0);
    assert!(l.pools[0].options.is_empty());
}

#[test]
fn create_pool_rejects_any_other_digest() {
    let mut l = new_ledger();
    let r = l.create_pool(
        &admin(),
        b"Alpha".to_vec(),
        sha(b"Beta"),
        &Vec::new(),
        &Vec::new(),
    );
    assert_eq!(r, Err(CustomError::TitleDoesNotMatchHash));
    let r = l.create_pool(
        &admin(),
        b"Alpha".to_vec(),
        vec![0u8; 32],
        &Vec::new(),
        &Vec::new(),
    );
    assert_eq!(r, Err(CustomError::TitleDoesNotMatchHash));
    assert!(l.pools.is_empty());
}

#[test]
fn create_pool_rejects_non_admin() {
    let mut l = new_ledger();
    let r = l.create_pool(
        &participant(9),
        b"Alpha".to_vec(),
        sha(b"Alpha"),
        &Vec::new(),
        &Vec::new(),
    );
    assert_eq!(r, Err(CustomError::Unauthorized));
}

#[test]
fn create_pool_rejects_long_image_url() {
    let mut l = new_ledger();
    let r = l.create_pool(
        &admin(),
        b"Alpha".to_vec(),
        sha(b"Alpha"),
        &vec![b'x'; 201],
        &Vec::new(),
    );
    assert_eq!(r, Err(CustomError::ImageUrlTooLong));
    let r = l.create_pool(
        &admin(),
        b"Alpha".to_vec(),
        sha(b"Alpha"),
        &vec![b'x'; 200],
        &Vec::new(),
    );
    assert!(r.is_ok());
}

#[test]
fn create_pool_rejects_long_description() {
    let mut l = new_ledger();
    let r = l.create_pool(
        &admin(),
        b"Alpha".to_vec(),
        sha(b"Alpha"),
        &Vec::new(),
        &vec![b'y'; 201],
    );
    assert_eq!(r, Err(CustomError::DescriptionTooLong));
}

#[test]
fn create_pool_rejects_occupied_address() {
    let mut l = new_ledger();
    make_pool(&mut l, "Alpha");
    let r = l.create_pool(
        &admin(),
        b"Alpha".to_vec(),
        sha(b"Alpha"),
        &Vec::new(),
        &Vec::new(),
    );
    assert_eq!(r, Err(CustomError::AddressOccupied));
    assert_eq!(l.pools.len(), 1);
}

#[test]
fn create_option_accepts_matching_digest() {
    let mut l = new_ledger();
    let pool = make_pool(&mut l, "Cup final");
    let opt = make_option(&mut l, &pool, "Home");
    assert_eq!(opt.len(), 32);
    assert_eq!(l.pools[0].options.len(), 1);
    assert_eq!(l.pools[0].options[0].addr, opt);
    assert_eq!(l.pools[0].options[0].title, b"Home".to_vec());
    assert_eq!(l.pools[0].options[0].value, 0);
    assert_eq!(l.pools[0].value, 0);
}

#[test]
fn create_option_rejects_wrong_digest() {
    let mut l = new_ledger();
    let pool = make_pool(&mut l, "Cup final");
    let wrong = sha(b"Home");
    let r = l.create_option(&admin(), &pool, b"Home".to_vec(), wrong);
    assert_eq!(r, Err(CustomError::PoolOptionDoesNotMatchHash));
}

#[test]
fn create_option_rejects_duplicate_title() {
    let mut l = new_ledger();
    let pool = make_pool(&mut l, "Cup final");
    make_option(&mut l, &pool, "Home");
    let digest = option_digest(&pool, "Home");
    let r = l.create_option(&admin(), &pool, b"Home".to_vec(), digest);
    assert_eq!(r, Err(CustomError::AddressOccupied));
}

#[test]
fn create_option_rejects_non_admin() {
    let mut l = new_ledger();
    let pool = make_pool(&mut l, "Cup final");
    let digest = option_digest(&pool, "Home");
    let r = l.create_option(&participant(9), &pool, b"Home".to_vec(), digest);
    assert_eq!(r, Err(CustomError::Unauthorized));
}

#[test]
fn create_option_rejects_underived_pool_account() {
    // A pool record sitting at an address that its title and the admin do
    // not derive to is rejected when an option is created under it.
    let mut l = new_ledger();
    let bogus_addr = vec![9u8; 32];
    l.pools.push(Pool {
        addr: bogus_addr.clone(),
        title: b"Forged".to_vec(),
        is_paused: false,
        winning_option: None,
        value: 0,
        options: Vec::new(),
    });
    let digest = option_digest(&bogus_addr, "Home");
    let r = l.create_option(&admin(), &bogus_addr, b"Home".to_vec(), digest);
    assert_eq!(r, Err(CustomError::PoolAccountDoesNotMatch));
}

#[test]
fn enter_unknown_pool_fails() {
    let mut l = new_ledger();
    let r = l.enter_pool(&participant(2), &vec![8u8; 32], &vec![9u8; 32], 10);
    assert_eq!(r, Err(CustomError::AccountNotFound));
}

#[test]
fn enter_unknown_option_fails() {
    let mut l = new_ledger();
    let pool = make_pool(&mut l, "Cup final");
    let r = l.enter_pool(&participant(2), &pool, &vec![9u8; 32], 10);
    assert_eq!(r, Err(CustomError::AccountNotFound));
}

#[test]
fn enter_paused_pool_fails() {
    let mut l = new_ledger();
    let pool = make_pool(&mut l, "Cup final");
    let opt = make_option(&mut l, &pool, "Home");
    l.set_is_paused(&admin(), &pool, true).unwrap();
    let r = l.enter_pool(&participant(2), &pool, &opt, 10);
    assert_eq!(r, Err(CustomError::PoolStateIncompatible));
    assert_eq!(l.pools[0].value, 0);
    l.set_is_paused(&admin(), &pool, false).unwrap();
    let r = l.enter_pool(&participant(2), &pool, &opt, 10);
    assert!(r.is_ok());
    assert_eq!(l.pools[0].value, 10);
}

#[test]
fn enter_accumulates_per_participant() {
    let mut l = new_ledger();
    let pool = make_pool(&mut l, "Cup final");
    let opt = make_option(&mut l, &pool, "Home");
    l.enter_pool(&participant(2), &pool, &opt, 10).unwrap();
    l.enter_pool(&participant(2), &pool, &opt, 5).unwrap();
    l.enter_pool(&participant(3), &pool, &opt, 7).unwrap();
    assert_eq!(l.pools[0].options[0].entries.len(), 2);
    assert_eq!(l.pools[0].options[0].entries[0].value, 15);
    assert!(!l.pools[0].options[0].entries[0].is_claimed);
    assert_eq!(l.pools[0].options[0].entries[1].value, 7);
    assert_eq!(l.pools[0].options[0].value, 22);
    assert_eq!(l.pools[0].value, 22);
}

#[test]
fn enter_entry_address_is_derived_not_supplied() {
    let mut l = new_ledger();
    let pool = make_pool(&mut l, "Cup final");
    let opt = make_option(&mut l, &pool, "Home");
    l.enter_pool(&participant(2), &pool, &opt, 10).unwrap();
    let expected = l.derive_entry_address(&opt, &participant(2)).unwrap();
    assert_eq!(l.pools[0].options[0].entries[0].addr, expected);
    // A derived address is none of its inputs.
    assert_ne!(expected, opt);
    assert_ne!(expected, participant(2));
}

#[test]
fn enter_overflow_is_checked() {
    let mut l = new_ledger();
    let pool = make_pool(&mut l, "Cup final");
    let opt = make_option(&mut l, &pool, "Home");
    l.enter_pool(&participant(2), &pool, &opt, u64::MAX).unwrap();
    let r = l.enter_pool(&participant(3), &pool, &opt, 1);
    assert_eq!(r, Err(CustomError::ValueOverflow));
    assert_eq!(l.pools[0].value, u64::MAX);
    assert_eq!(l.pools[0].options[0].entries.len(), 1);
}

#[test]
fn enter_rejects_underivable_entrant() {
    // A 33-byte participant address exceeds the host's seed length limit,
    // so no entry address can be derived for it.
    let mut l = new_ledger();
    let pool = make_pool(&mut l, "Cup final");
    let opt = make_option(&mut l, &pool, "Home");
    let r = l.enter_pool(&vec![2u8; 33], &pool, &opt, 10);
    assert_eq!(r, Err(CustomError::AddressUnderivable));
}

#[test]
fn derived_addresses_differ_per_option_and_participant() {
    let mut l = new_ledger();
    let pool = make_pool(&mut l, "Cup final");
    let opt_a = make_option(&mut l, &pool, "Home");
    let opt_b = make_option(&mut l, &pool, "Away");
    let p1 = participant(2);
    let p2 = participant(3);
    let a_p1 = l.derive_entry_address(&opt_a, &p1).unwrap();
    let b_p1 = l.derive_entry_address(&opt_b, &p1).unwrap();
    let a_p2 = l.derive_entry_address(&opt_a, &p2).unwrap();
    assert_ne!(a_p1, b_p1);
    assert_ne!(a_p1, a_p2);
    // The derivation is deterministic.
    assert_eq!(a_p1, l.derive_entry_address(&opt_a, &p1).unwrap());
}

#[test]
fn set_is_paused_requires_admin_and_pool() {
    let mut l = new_ledger();
    let pool = make_pool(&mut l, "Cup final");
    assert_eq!(
        l.set_is_paused(&participant(9), &pool, true),
        Err(CustomError::Unauthorized)
    );
    assert_eq!(
        l.set_is_paused(&admin(), &vec![9u8; 32], true),
        Err(CustomError::AccountNotFound)
    );
    assert_eq!(l.set_is_paused(&admin(), &pool, true), Ok(()));
    assert!(l.pools[0].is_paused);
}

#[test]
fn set_winning_option_requires_paused_pool() {
    let mut l = new_ledger();
    let pool = make_pool(&mut l, "Cup final");
    let opt = make_option(&mut l, &pool, "Home");
    let r = l.set_winning_option(&admin(), &pool, opt.clone());
    assert_eq!(r, Err(CustomError::PoolStateIncompatible));
    assert!(l.pools[0].winning_option.is_none());
    l.set_is_paused(&admin(), &pool, true).unwrap();
    let r = l.set_winning_option(&admin(), &pool, opt.clone());
    assert_eq!(r, Ok(()));
    assert_eq!(l.pools[0].winning_option, Some(opt));
}

#[test]
fn set_winning_option_requires_admin() {
    let mut l = new_ledger();
    let pool = make_pool(&mut l, "Cup final");
    let opt = make_option(&mut l, &pool, "Home");
    l.set_is_paused(&admin(), &pool, true).unwrap();
    let r = l.set_winning_option(&participant(9), &pool, opt);
    assert_eq!(r, Err(CustomError::Unauthorized));
}

#[test]
fn winning_option_can_be_reset_while_paused() {
    // Nothing forbids declaring a different winner later; the declaration
    // is late-binding and claims follow whichever option is current.
    let mut l = new_ledger();
    let pool = make_pool(&mut l, "Cup final");
    let opt_a = make_option(&mut l, &pool, "Home");
    let opt_b = make_option(&mut l, &pool, "Away");
    l.set_is_paused(&admin(), &pool, true).unwrap();
    l.set_winning_option(&admin(), &pool, opt_a.clone()).unwrap();
    l.set_winning_option(&admin(), &pool, opt_b.clone()).unwrap();
    assert_eq!(l.pools[0].winning_option, Some(opt_b));
}

#[test]
fn claim_on_losing_option_fails() {
    let mut l = new_ledger();
    let pool = make_pool(&mut l, "Cup final");
    let opt_a = make_option(&mut l, &pool, "Home");
    let opt_b = make_option(&mut l, &pool, "Away");
    let p1 = participant(2);
    let p2 = participant(3);
    l.enter_pool(&p1, &pool, &opt_a, 10).unwrap();
    l.enter_pool(&p2, &pool, &opt_b, 10).unwrap();
    l.set_is_paused(&admin(), &pool, true).unwrap();
    l.set_winning_option(&admin(), &pool, opt_a.clone()).unwrap();
    let entry_b = l.derive_entry_address(&opt_b, &p2).unwrap();
    let r = l.claim_win(&p2, &pool, &opt_b, &entry_b);
    assert_eq!(r, Err(CustomError::LosingOption));
}

#[test]
fn claim_by_wrong_participant_fails() {
    let mut l = new_ledger();
    let pool = make_pool(&mut l, "Cup final");
    let opt = make_option(&mut l, &pool, "Home");
    let p1 = participant(2);
    let p2 = participant(3);
    l.enter_pool(&p1, &pool, &opt, 10).unwrap();
    l.set_is_paused(&admin(), &pool, true).unwrap();
    l.set_winning_option(&admin(), &pool, opt.clone()).unwrap();
    let entry_p1 = l.derive_entry_address(&opt, &p1).unwrap();
    // p2 presents p1's entry but cannot derive to it.
    let r = l.claim_win(&p2, &pool, &opt, &entry_p1);
    assert_eq!(r, Err(CustomError::EntryNotDerivedFromOptionOrSigner));
    assert!(!l.pools[0].options[0].entries[0].is_claimed);
}

#[test]
fn claim_with_foreign_entry_fails_identity_check() {
    // An entry created under option A, presented with option B, is held
    // against the derivation for (B, signer) and fails as an identity
    // mismatch, not as a missing record.
    let mut l = new_ledger();
    let pool = make_pool(&mut l, "Cup final");
    let opt_a = make_option(&mut l, &pool, "Home");
    let opt_b = make_option(&mut l, &pool, "Away");
    let p1 = participant(2);
    let p2 = participant(3);
    l.enter_pool(&p1, &pool, &opt_a, 10).unwrap();
    l.enter_pool(&p2, &pool, &opt_b, 10).unwrap();
    l.set_is_paused(&admin(), &pool, true).unwrap();
    l.set_winning_option(&admin(), &pool, opt_b.clone()).unwrap();
    let entry_a = l.derive_entry_address(&opt_a, &p1).unwrap();
    let r = l.claim_win(&p1, &pool, &opt_b, &entry_a);
    assert_eq!(r, Err(CustomError::EntryNotDerivedFromOptionOrSigner));
    assert!(!l.pools[0].options[0].entries[0].is_claimed);
}

#[test]
fn claim_of_absent_own_entry_fails_not_found() {
    // The signer's derivation matches the presented address, but no record
    // was ever created there: only then is the record reported missing.
    let mut l = new_ledger();
    let pool = make_pool(&mut l, "Cup final");
    let opt_a = make_option(&mut l, &pool, "Home");
    let opt_b = make_option(&mut l, &pool, "Away");
    l.enter_pool(&participant(2), &pool, &opt_a, 10).unwrap();
    l.set_is_paused(&admin(), &pool, true).unwrap();
    l.set_winning_option(&admin(), &pool, opt_b.clone()).unwrap();
    let p3 = participant(4);
    let own_addr = l.derive_entry_address(&opt_b, &p3).unwrap();
    let r = l.claim_win(&p3, &pool, &opt_b, &own_addr);
    assert_eq!(r, Err(CustomError::AccountNotFound));
}

#[test]
fn claim_amount_preview_matches_claim() {
    let mut l = new_ledger();
    let pool = make_pool(&mut l, "Cup final");
    let opt = make_option(&mut l, &pool, "Home");
    let p1 = participant(2);
    l.enter_pool(&p1, &pool, &opt, 10).unwrap();
    l.set_is_paused(&admin(), &pool, true).unwrap();
    l.set_winning_option(&admin(), &pool, opt.clone()).unwrap();
    let entry = l.derive_entry_address(&opt, &p1).unwrap();
    let preview = l.claim_win_amount(&p1, &pool, &opt, &entry);
    assert_eq!(preview, Ok(10));
    // The preview does not claim.
    assert!(!l.pools[0].options[0].entries[0].is_claimed);
    assert_eq!(l.claim_win(&p1, &pool, &opt, &entry), Ok(10));
    assert_eq!(
        l.claim_win_amount(&p1, &pool, &opt, &entry),
        Err(CustomError::EntryAlreadyClaimed)
    );
}

#[test]
fn claim_succeeds_once_then_fails() {
    let mut l = new_ledger();
    let pool = make_pool(&mut l, "Cup final");
    let opt = make_option(&mut l, &pool, "Home");
    let p1 = participant(2);
    l.enter_pool(&p1, &pool, &opt, 10).unwrap();
    l.set_is_paused(&admin(), &pool, true).unwrap();
    l.set_winning_option(&admin(), &pool, opt.clone()).unwrap();
    let entry = l.derive_entry_address(&opt, &p1).unwrap();
    // Sole entry on the sole option: share = 100 * 100 / 100 hundredths.
    let r = l.claim_win(&p1, &pool, &opt, &entry);
    assert_eq!(r, Ok(10));
    assert!(l.pools[0].options[0].entries[0].is_claimed);
    let r = l.claim_win(&p1, &pool, &opt, &entry);
    assert_eq!(r, Err(CustomError::EntryAlreadyClaimed));
}

#[test]
fn claim_with_zero_valued_winning_option_fails() {
    let mut l = new_ledger();
    let pool = make_pool(&mut l, "Cup final");
    let opt = make_option(&mut l, &pool, "Home");
    let p1 = participant(2);
    l.enter_pool(&p1, &pool, &opt, 0).unwrap();
    l.set_is_paused(&admin(), &pool, true).unwrap();
    l.set_winning_option(&admin(), &pool, opt.clone()).unwrap();
    let entry = l.derive_entry_address(&opt, &p1).unwrap();
    let r = l.claim_win(&p1, &pool, &opt, &entry);
    assert_eq!(r, Err(CustomError::DivisionByZero));
}

#[test]
fn claim_overflow_is_checked() {
    let mut l = new_ledger();
    let pool = make_pool(&mut l, "Cup final");
    let opt = make_option(&mut l, &pool, "Home");
    let p1 = participant(2);
    l.enter_pool(&p1, &pool, &opt, u64::MAX).unwrap();
    l.set_is_paused(&admin(), &pool, true).unwrap();
    l.set_winning_option(&admin(), &pool, opt.clone()).unwrap();
    let entry = l.derive_entry_address(&opt, &p1).unwrap();
    let r = l.claim_win(&p1, &pool, &opt, &entry);
    assert_eq!(r, Err(CustomError::ValueOverflow));
    assert!(!l.pools[0].options[0].entries[0].is_claimed);
}

#[test]
fn end_to_end_settlement_leaves_dust() {
    let mut l = new_ledger();
    let pool = make_pool(&mut l, "Cup final");
    let opt_a = make_option(&mut l, &pool, "Home");
    let opt_b = make_option(&mut l, &pool, "Away");
    let winners = [participant(2), participant(3), participant(4)];
    for w in winners.iter() {
        l.enter_pool(w, &pool, &opt_a, 10).unwrap();
    }
    let loser = participant(5);
    l.enter_pool(&loser, &pool, &opt_b, 10).unwrap();
    assert_eq!(l.pools[0].value, 40);
    assert_eq!(l.pools[0].options[0].value, 30);
    assert_eq!(l.pools[0].options[1].value, 10);

    l.set_is_paused(&admin(), &pool, true).unwrap();
    l.set_winning_option(&admin(), &pool, opt_a.clone()).unwrap();

    // share = floor(40 * 100 / 30) = 133 hundredths;
    // each payout = floor(10 * 133 / 100) = 13.
    let mut paid: u64 = 0;
    for w in winners.iter() {
        let entry = l.derive_entry_address(&opt_a, w).unwrap();
        let amount = l.claim_win(w, &pool, &opt_a, &entry).unwrap();
        assert_eq!(amount, 13);
        paid += amount;
    }
    assert_eq!(paid, 39);
    // Of the 40 units in custody, one unit of dust is never redistributed.
    assert_eq!(l.pools[0].value - paid, 1);

    let entry_b = l.derive_entry_address(&opt_b, &loser).unwrap();
    let r = l.claim_win(&loser, &pool, &opt_b, &entry_b);
    assert_eq!(r, Err(CustomError::LosingOption));
}

#[test]
fn accounting_invariant_holds_throughout() {
    fn check_sums(l: &Ledger) {
        for p in l.pools.iter() {
            let mut pool_sum: u64 = 0;
            for o in p.options.iter() {
                let mut option_sum: u64 = 0;
                for e in o.entries.iter() {
                    option_sum += e.value;
                }
                assert_eq!(o.value, option_sum);
                pool_sum += o.value;
            }
            assert_eq!(p.value, pool_sum);
        }
    }
    let mut l = new_ledger();
    let pool = make_pool(&mut l, "Cup final");
    check_sums(&l);
    let opt_a = make_option(&mut l, &pool, "Home");
    let opt_b = make_option(&mut l, &pool, "Away");
    check_sums(&l);
    l.enter_pool(&participant(2), &pool, &opt_a, 17).unwrap();
    check_sums(&l);
    l.enter_pool(&participant(3), &pool, &opt_b, 4).unwrap();
    check_sums(&l);
    l.enter_pool(&participant(2), &pool, &opt_a, 1).unwrap();
    check_sums(&l);
    l.set_is_paused(&admin(), &pool, true).unwrap();
    l.set_winning_option(&admin(), &pool, opt_a.clone()).unwrap();
    check_sums(&l);
    let entry = l.derive_entry_address(&opt_a, &participant(2)).unwrap();
    l.claim_win(&participant(2), &pool, &opt_a, &entry).unwrap();
    check_sums(&l);
}

#[test]
fn records_can_be_built_directly() {
    let e = Entry { addr: vec![0u8; 32], value: 5, is_claimed: false };
    let o = PoolOption {
        addr: vec![1u8; 32],
        title: b"Home".to_vec(),
        value: 5,
        entries: vec![e],
    };
    assert_eq!(o.entries[0].value, 5);
}
