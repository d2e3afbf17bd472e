use kitties::dna::Gender;
use kitties::registry::Error;
use kitties::registry::Event;
use kitties::registry::Registry;

// Builds a registry the way the environment's genesis loader would: an empty
// registry, the initial assets minted through the same write path as the
// handlers, and a few accounts endowed with funds.
fn new_test_ext(genesis: Vec<(u64, [u8; 16], Gender)>) -> Registry {
    let mut reg = Registry::new(100, [7u8; 32]);
    for (owner, dna, gender) in genesis {
        reg.mint(owner, dna, gender).unwrap();
    }
    let mut a: u64 = 1;
    while a <= 5 {
        reg.set_balance(a, 100);
        a += 1;
    }
    reg
}

fn two_kitty_genesis() -> Vec<(u64, [u8; 16], Gender)> {
    vec![
        (1, *b"1234567890123456", Gender::Female),
        (2, *b"123456789012345a", Gender::Male),
    ]
}

// Checks that kitty ownership is recorded consistently in storage.
fn assert_ownership(reg: &Registry, owner: u64, kitty_id: [u8; 16]) {
    assert!(reg.assert_ownership(owner, kitty_id));
}

#[test]
fn should_build_genesis_kitties() {
    let reg = new_test_ext(two_kitty_genesis());

    // Check we have 2 kitties, as specified in genesis
    assert_eq!(reg.count_for_kitties(), 2);

    // Check owners own the correct amount of kitties
    let kitties_owned_by_1 = reg.kitties_owned(1);
    assert_eq!(kitties_owned_by_1.len(), 1);

    let kitties_owned_by_2 = reg.kitties_owned(2);
    assert_eq!(kitties_owned_by_2.len(), 1);

    // Check that kitties are owned by the correct owners
    let kitty_1 = kitties_owned_by_1[0];
    assert_ownership(&reg, 1, kitty_1);

    let kitty_2 = kitties_owned_by_2[0];
    assert_ownership(&reg, 2, kitty_2);
}

#[test]
fn create_kitty_should_work() {
    let mut reg = new_test_ext(two_kitty_genesis());

    // Create a kitty with account #10
    assert_eq!(reg.create_kitty(10), Ok(()));

    // Check that 3 kitties exist (together with the 2 from genesis)
    assert_eq!(reg.count_for_kitties(), 3);

    // Check that account #10 owns 1 kitty
    let kitties_owned = reg.kitties_owned(10);
    assert_eq!(kitties_owned.len(), 1);
    let id = *kitties_owned.last().unwrap();
    assert_ownership(&reg, 10, id);

    // Check that this kitty is specifically owned by account #10
    let kitty = reg.get_kitty(id).unwrap();
    assert_eq!(kitty.owner, 10);
    assert_eq!(kitty.price, None);
}

#[test]
fn transfer_kitty_should_work() {
    let mut reg = new_test_ext(two_kitty_genesis());

    // Check that account 10 owns a kitty
    assert_eq!(reg.create_kitty(10), Ok(()));
    let id = reg.kitties_owned(10)[0];

    // Account 10 sends kitty to account 3
    assert_eq!(reg.transfer(10, 3, id), Ok(()));

    // Account 10 now has nothing
    assert_eq!(reg.kitties_owned(10).len(), 0);

    // but account 3 does
    assert_eq!(reg.kitties_owned(3).len(), 1);
    assert_ownership(&reg, 3, id);
}

#[test]
fn transfer_non_owned_kitty_should_fail() {
    let mut reg = new_test_ext(two_kitty_genesis());
    let hash = reg.kitties_owned(1)[0];

    // Account 9 cannot transfer a kitty with this hash.
    assert_eq!(reg.transfer(9, 2, hash), Err(Error::NotOwner));

    // And the state is untouched.
    assert_eq!(reg.count_for_kitties(), 2);
    assert_eq!(reg.kitties_owned(1).len(), 1);
    assert_ownership(&reg, 1, hash);
}

#[test]
fn mint_should_fail() {
    // Check mint fails when kitty id already exists.
    let mut reg = new_test_ext(two_kitty_genesis());
    let id = [0u8; 16];

    // Mint new kitty with `id`
    assert_eq!(reg.mint(1, id, Gender::Male), Ok(()));

    // Mint another kitty with the same `id` should fail
    assert_eq!(reg.mint(1, id, Gender::Male), Err(Error::DuplicateKitty));
}

#[test]
fn multiple_kitties_in_one_block() {
    // Check that multiple create_kitty calls work in a single block.
    let mut reg = new_test_ext(two_kitty_genesis());

    // Create a kitty with account #10
    assert_eq!(reg.create_kitty(10), Ok(()));

    // Increment extrinsic index
    reg.set_extrinsic_index(1);

    // Create a kitty with account #10
    assert_eq!(reg.create_kitty(10), Ok(()));
}

#[test]
fn breed_kitty_works() {
    // Check that breed kitty works as expected.
    let mut reg = new_test_ext(two_kitty_genesis());

    // Get mom and dad kitties for account #1
    let mom = [0u8; 16];
    assert_eq!(reg.mint(1, mom, Gender::Female), Ok(()));

    // Mint male kitty for account #1
    let dad = [1u8; 16];
    assert_eq!(reg.mint(1, dad, Gender::Male), Ok(()));

    // Breeder can only breed kitties they own
    assert_eq!(reg.breed_kitty(1, mom, dad), Ok(()));

    // Check that newly bred kitty exists
    assert_eq!(reg.kitties_owned(1).len(), 4);

    // Check the new DNA is from the mom and dad
    let new_dna = reg.kitties_owned(1)[3];
    for &i in new_dna.iter() {
        assert!(i == 0u8 || i == 1u8)
    }

    // Kitty cant breed with itself
    assert_eq!(reg.breed_kitty(1, mom, mom), Err(Error::CantBreed));
}

#[test]
fn cant_exceed_max_kitties() {
    // Check that create_kitty fails when user owns too many kitties.
    let mut reg = new_test_ext(two_kitty_genesis());

    // Create `max_kitties_owned` kitties with account #10
    let mut i: u32 = 0;
    while i < reg.max_kitties_owned() {
        assert_eq!(reg.create_kitty(10), Ok(()));
        // The generated id depends on the block number for its seed,
        // so advancing it gives each creation a different kitty id
        let bn = reg.block_number();
        reg.set_block_number(bn + 1);
        i += 1;
    }

    // Can't create 1 more
    assert_eq!(reg.create_kitty(10), Err(Error::TooManyOwned));
}

#[test]
fn breed_kitty_checks_same_owner() {
    let mut reg = new_test_ext(two_kitty_genesis());

    // Check breed kitty checks the same owner.
    // Get the kitty owned by account #1
    let kitty_1 = reg.kitties_owned(1)[0];

    // Another kitty from another owner
    let kitty_2 = reg.kitties_owned(2)[0];

    // Breeder can only breed kitties they own
    assert_eq!(reg.breed_kitty(1, kitty_1, kitty_2), Err(Error::NotOwner));
}

#[test]
fn ensure_opposite_gender() {
    let mut reg = new_test_ext(two_kitty_genesis());

    // Check that breed kitty checks opposite gender
    let kitty_1 = [1u8; 16];
    let kitty_2 = [3u8; 16];

    // Mint a Female kitty
    assert_eq!(reg.mint(3, kitty_1, Gender::Female), Ok(()));

    // Mint another Female kitty
    assert_eq!(reg.mint(3, kitty_2, Gender::Female), Ok(()));

    // Same gender kitty can't breed
    assert_eq!(reg.breed_kitty(3, kitty_1, kitty_2), Err(Error::CantBreed));
}

#[test]
fn dna_helpers_should_work() {
    let mut reg = new_test_ext(two_kitty_genesis());

    // Test breed_dna and the other dna functions behave as expected
    // Get two kitty dnas
    let dna_1 = [1u8; 16];
    let dna_2 = [2u8; 16];

    // Generate unique Gender and DNA
    let (dna, _gender) = reg.breed_dna(1, &dna_1, &dna_2);

    // Check that the new kitty is actually a child of one of its parents
    // DNA bytes must be a mix of mom or dad's DNA
    for &i in dna.iter() {
        assert!(i == 1u8 || i == 2u8)
    }

    // Test that randomness works in same block
    let (random_dna_1, _) = reg.gen_dna(1);
    // increment extrinsic index
    reg.set_extrinsic_index(1);
    let (random_dna_2, _) = reg.gen_dna(1);

    // Random values should not be equal
    assert_ne!(random_dna_1, random_dna_2);
}

#[test]
fn transfer_fails_to_self() {
    let mut reg = new_test_ext(two_kitty_genesis());

    // Check transfer fails when transferring to self
    // Get kitty info from account 1
    let id = reg.kitties_owned(1)[0];

    assert_eq!(reg.transfer(1, 1, id), Err(Error::TransferToSelf));

    // Check transfer fails when no kitty exists
    let random_id = [0u8; 16];

    assert_eq!(reg.transfer(2, 1, random_id), Err(Error::NoKitty));

    // Check that transfer fails when max kitty is reached
    // Create `max_kitties_owned` kitties for account #10
    let mut i: u32 = 0;
    while i < reg.max_kitties_owned() {
        assert_eq!(reg.create_kitty(10), Ok(()));
        let bn = reg.block_number();
        reg.set_block_number(bn + 1);
        i += 1;
    }

    // Get a kitty to transfer
    let kitty_1 = reg.kitties_owned(1)[0];

    // Account #10 should not be able to receive a new kitty
    assert_eq!(reg.transfer(1, 10, kitty_1), Err(Error::TooManyOwned));
}

#[test]
fn buy_kitty_works() {
    let mut reg = new_test_ext(two_kitty_genesis());

    // Check buy_kitty works as expected
    let id = reg.kitties_owned(2)[0];
    let set_price: u64 = 4;
    let balance_1_before = reg.free_balance(1);
    let balance_2_before = reg.free_balance(2);

    // Account #2 sets a price of 4 for their kitty
    assert_eq!(reg.set_price(2, id, Some(set_price)), Ok(()));

    // Account #1 can buy account #2's kitty
    assert_eq!(reg.buy_kitty(1, id, set_price), Ok(()));

    // Balance transfer works as expected
    let balance_1_after = reg.free_balance(1);
    let balance_2_after = reg.free_balance(2);

    assert!(balance_1_before - set_price == balance_1_after);
    assert!(balance_2_before + set_price == balance_2_after);

    // Kitty is owned by account #1 and no longer for sale
    let kitty = reg.get_kitty(id).unwrap();
    assert_eq!(kitty.owner, 1);
    assert_eq!(kitty.price, None);

    // Kitty is not for sale
    assert_eq!(reg.buy_kitty(10, id, 2), Err(Error::NotForSale));
}

#[test]
fn price_too_low() {
    let mut reg = new_test_ext(two_kitty_genesis());

    // Check buy_kitty fails when bid price is too low

    // New price is set to 4
    let id = reg.kitties_owned(2)[0];
    let set_price: u64 = 4;
    assert_eq!(reg.set_price(2, id, Some(set_price)), Ok(()));

    // Account #10 cant buy this kitty for this price
    assert_eq!(reg.buy_kitty(10, id, 2), Err(Error::BidPriceTooLow));
}

#[test]
fn high_bid_transfers_correctly() {
    let mut reg = new_test_ext(two_kitty_genesis());

    // Check buy_kitty moves the listed amount, never the bid: the bid is only
    // the buyer's upper bound, and the buyer never pays more than asked.
    // First get the balances of each account
    let balance_1_before = reg.free_balance(1);
    let balance_2_before = reg.free_balance(2);

    // Account #2 sets new price to 4
    let id = reg.kitties_owned(2)[0];
    let set_price: u64 = 4;
    assert_eq!(reg.set_price(2, id, Some(set_price)), Ok(()));

    // Account #1 buys kitty at 10x the price; only the listed price moves
    assert_eq!(reg.buy_kitty(1, id, set_price * 10), Ok(()));

    // Balance transfer worked as expected
    let balance_1_after = reg.free_balance(1);
    let balance_2_after = reg.free_balance(2);

    assert!(balance_1_before - set_price == balance_1_after);
    assert!(balance_2_before + set_price == balance_2_after);

    // The sale delisted the kitty, so a later purchase attempt fails
    assert_eq!(reg.buy_kitty(10, id, set_price * 10), Err(Error::NotForSale));
}

#[test]
fn buy_at_capacity_fails() {
    let mut reg = new_test_ext(two_kitty_genesis());

    // Check that it's not possible to buy a kitty if max is reached
    // Set max kitties for account #10
    let mut i: u32 = 0;
    while i < reg.max_kitties_owned() {
        assert_eq!(reg.create_kitty(10), Ok(()));
        let bn = reg.block_number();
        reg.set_block_number(bn + 1);
        i += 1;
    }

    // Account #2 lists a kitty
    let id = reg.kitties_owned(2)[0];
    assert_eq!(reg.set_price(2, id, Some(4)), Ok(()));

    // Account #10 should not be able to buy a new kitty
    assert_eq!(reg.buy_kitty(10, id, 40), Err(Error::TooManyOwned));
}

#[test]
fn too_low_balance_should_fail() {
    let mut reg = new_test_ext(two_kitty_genesis());

    // Check buy_kitty fails when balance is too low

    // Use some kitty in storage owned by account 2 and set a high price
    let id = reg.kitties_owned(2)[0];
    let price = u64::MAX;
    assert_eq!(reg.set_price(2, id, Some(price)), Ok(()));

    assert_eq!(reg.buy_kitty(1, id, price), Err(Error::InsufficientBalance));
}

#[test]
fn kitty_not_for_sale() {
    let mut reg = new_test_ext(two_kitty_genesis());

    // Check buy_kitty fails when kitty is not for sale
    let id = reg.kitties_owned(1)[0];
    // Kitty is not for sale
    assert_eq!(reg.buy_kitty(2, id, 2), Err(Error::NotForSale));
}

#[test]
fn set_price_works() {
    let mut reg = new_test_ext(two_kitty_genesis());

    // Check set_price works as expected

    // New price is set to 4
    let id = reg.kitties_owned(2)[0];
    let set_price: u64 = 4;
    assert_eq!(reg.set_price(2, id, Some(set_price)), Ok(()));
    assert_eq!(reg.get_kitty(id).unwrap().price, Some(set_price));

    // Only owner can set price
    assert_eq!(reg.set_price(1, id, Some(set_price)), Err(Error::NotOwner));
}

#[test]
fn not_owner_cant_set_price() {
    let mut reg = new_test_ext(two_kitty_genesis());

    // Create kitty
    assert_eq!(reg.create_kitty(10), Ok(()));
    let id = reg.kitties_owned(10)[0];

    // Check set_price fails when not owner
    let new_price: u64 = 4;

    assert_eq!(reg.set_price(1, id, Some(new_price)), Err(Error::NotOwner));
}

#[test]
fn failed_call_leaves_state_unchanged() {
    let mut reg = new_test_ext(two_kitty_genesis());
    let id = reg.kitties_owned(1)[0];

    let count_before = reg.count_for_kitties();
    let owned_1_before = reg.kitties_owned(1);
    let owned_2_before = reg.kitties_owned(2);
    let balance_1_before = reg.free_balance(1);
    let balance_2_before = reg.free_balance(2);
    let events_before = reg.events().len();

    // A transfer by a non-owner, a purchase of an unlisted kitty, and a
    // breed of two assets with the same owner all fail ...
    assert_eq!(reg.transfer(9, 2, id), Err(Error::NotOwner));
    assert_eq!(reg.buy_kitty(2, id, 5), Err(Error::NotForSale));
    let other = reg.kitties_owned(2)[0];
    assert_eq!(reg.breed_kitty(1, id, other), Err(Error::NotOwner));

    // ... and none of them left a trace.
    assert_eq!(reg.count_for_kitties(), count_before);
    assert_eq!(reg.kitties_owned(1), owned_1_before);
    assert_eq!(reg.kitties_owned(2), owned_2_before);
    assert_eq!(reg.free_balance(1), balance_1_before);
    assert_eq!(reg.free_balance(2), balance_2_before);
    assert_eq!(reg.events().len(), events_before);
}

#[test]
fn events_record_operations() {
    let mut reg = new_test_ext(two_kitty_genesis());

    assert_eq!(reg.create_kitty(10), Ok(()));
    let id = reg.kitties_owned(10)[0];
    assert!(matches!(
        reg.events().last().unwrap(),
        Event::Created { owner: 10, .. }
    ));

    assert_eq!(reg.transfer(10, 3, id), Ok(()));
    assert!(matches!(
        reg.events().last().unwrap(),
        Event::Transferred { from: 10, to: 3, .. }
    ));

    assert_eq!(reg.set_price(3, id, Some(7)), Ok(()));
    assert!(matches!(
        reg.events().last().unwrap(),
        Event::PriceSet { owner: 3, new_price: Some(7), .. }
    ));

    assert_eq!(reg.buy_kitty(4, id, 9), Ok(()));
    assert!(matches!(
        reg.events().last().unwrap(),
        Event::Sold { seller: 3, buyer: 4, price: 7, .. }
    ));
}

#[test]
fn gen_dna_is_deterministic() {
    let reg = new_test_ext(two_kitty_genesis());

    // The generator is a pure function of entropy, caller, block and
    // sequence number: the same inputs give the same output ...
    let (d1, g1) = reg.gen_dna(1);
    let (d2, g2) = reg.gen_dna(1);
    assert_eq!(d1, d2);
    assert_eq!(g1 == Gender::Male, g2 == Gender::Male);

    // ... and a different caller gives a different seed.
    let (d3, _) = reg.gen_dna(2);
    assert_ne!(d1, d3);
}

#[test]
fn free_listing_can_be_bought() {
    let mut reg = new_test_ext(two_kitty_genesis());

    // A price of zero is a valid "free" listing, distinct from not-for-sale.
    let id = reg.kitties_owned(2)[0];
    assert_eq!(reg.set_price(2, id, Some(0)), Ok(()));

    let balance_1_before = reg.free_balance(1);
    assert_eq!(reg.buy_kitty(1, id, 0), Ok(()));
    assert_eq!(reg.free_balance(1), balance_1_before);
    assert_eq!(reg.get_kitty(id).unwrap().owner, 1);
}

#[test]
fn delisting_works() {
    let mut reg = new_test_ext(two_kitty_genesis());

    let id = reg.kitties_owned(2)[0];
    assert_eq!(reg.set_price(2, id, Some(4)), Ok(()));
    assert_eq!(reg.set_price(2, id, None), Ok(()));
    assert_eq!(reg.get_kitty(id).unwrap().price, None);
    assert_eq!(reg.buy_kitty(1, id, 4), Err(Error::NotForSale));
}

#[test]
fn buying_own_kitty_delists_it() {
    let mut reg = new_test_ext(two_kitty_genesis());

    let id = reg.kitties_owned(2)[0];
    assert_eq!(reg.set_price(2, id, Some(4)), Ok(()));

    let balance_before = reg.free_balance(2);
    assert_eq!(reg.buy_kitty(2, id, 4), Ok(()));

    // Money moved from the buyer to the seller, who are the same account,
    // the kitty stayed put, and the listing is gone.
    assert_eq!(reg.free_balance(2), balance_before);
    assert_eq!(reg.kitties_owned(2).len(), 1);
    let kitty = reg.get_kitty(id).unwrap();
    assert_eq!(kitty.owner, 2);
    assert_eq!(kitty.price, None);
}

#[test]
fn crediting_the_seller_cannot_overflow() {
    let mut reg = new_test_ext(two_kitty_genesis());

    // The seller's balance is nearly saturated; paying them would overflow
    // the ledger, so the purchase fails and nothing moves.
    reg.set_balance(2, u64::MAX - 1);
    let id = reg.kitties_owned(2)[0];
    assert_eq!(reg.set_price(2, id, Some(4)), Ok(()));

    assert_eq!(reg.buy_kitty(1, id, 4), Err(Error::Overflow));
    assert_eq!(reg.free_balance(1), 100);
    assert_eq!(reg.free_balance(2), u64::MAX - 1);
    assert_eq!(reg.get_kitty(id).unwrap().owner, 2);
}

#[test]
fn mint_checks_capacity() {
    // A registry with a tiny capacity bound: the bound is enforced before
    // insertion, also on the shared mint path.
    let mut reg = Registry::new(1, [9u8; 32]);
    assert_eq!(reg.mint(1, [0u8; 16], Gender::Female), Ok(()));
    assert_eq!(reg.mint(1, [1u8; 16], Gender::Male), Err(Error::TooManyOwned));
    assert_eq!(reg.kitties_owned(1).len(), 1);
    assert_eq!(reg.count_for_kitties(), 1);
}

#[test]
fn transfer_delists_the_kitty() {
    let mut reg = new_test_ext(two_kitty_genesis());

    let id = reg.kitties_owned(2)[0];
    assert_eq!(reg.set_price(2, id, Some(4)), Ok(()));

    // A transfer always delists
    assert_eq!(reg.transfer(2, 3, id), Ok(()));
    let kitty = reg.get_kitty(id).unwrap();
    assert_eq!(kitty.owner, 3);
    assert_eq!(kitty.price, None);
}

#[test]
fn breed_child_mixes_parent_bytes() {
    let mut reg = new_test_ext(two_kitty_genesis());

    // Two distinguishable parents: every child byte must equal the
    // corresponding byte of one of them.
    let mom = *b"AAAAAAAAAAAAAAAA";
    let dad = *b"BBBBBBBBBBBBBBBB";
    assert_eq!(reg.mint(4, mom, Gender::Female), Ok(()));
    assert_eq!(reg.mint(4, dad, Gender::Male), Ok(()));
    assert_eq!(reg.breed_kitty(4, mom, dad), Ok(()));

    let child = reg.kitties_owned(4)[2];
    for i in 0..16 {
        assert!(child[i] == mom[i] || child[i] == dad[i]);
    }
    assert_eq!(reg.count_for_kitties(), 5);
}
