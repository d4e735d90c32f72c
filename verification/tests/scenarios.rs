use pallet_letters::{Config, Error, Event, Pallet};

fn test_config() -> Config {
    Config {
        max_title_len: 64,
        max_author_len: 64,
        max_page_len: 8192,
        max_page_num: 64,
        letter_deposit_base: 50,
        letter_deposit_factor: 5,
        page_deposit_base: 10,
        page_deposit_factor: 1,
        existential_deposit: 500,
    }
}

#[test]
fn mint_reserves_letter_deposit() {
    // title "hello" (5 bytes) and author "bear" (4 bytes) under base 50 and
    // factor 5 bond 50 + 5 * 9 = 95.
    let mut letters = Pallet::new(test_config());
    letters.endow(1, 10_000);
    let id = letters
        .init_letter(1, b"hello".to_vec(), b"bear".to_vec(), 7)
        .unwrap();
    assert_eq!(letters.reserved_balance(1), 95);
    assert_eq!(letters.free_balance(1), 10_000 - 95);
    assert_eq!(letters.deposit_of_letter(id), Some(95));
    assert_eq!(letters.emitted(), &vec![Event::LetterInit(1, id)]);
}

#[test]
fn transfer_moves_reservation() {
    // After a transfer the sender's hold is released and the receiver holds
    // exactly the pre-transfer amount.
    let mut letters = Pallet::new(test_config());
    let alice = 1;
    let bob = 2;
    letters.endow(alice, 10_000);
    letters.endow(bob, 10_000);
    let id = letters
        .init_letter(alice, b"hello".to_vec(), b"bear".to_vec(), 7)
        .unwrap();
    let before = letters.deposit_of_letter(id).unwrap();
    assert_eq!(letters.reserved_balance(alice), before);

    assert!(letters.transfer(alice, bob, id).is_ok());

    assert_eq!(letters.owner_of(id), Some(bob));
    assert_eq!(letters.owned_letter_count(alice), 0);
    assert_eq!(letters.owned_letter_count(bob), 1);
    assert_eq!(letters.reserved_balance(alice), 0);
    assert_eq!(letters.free_balance(alice), 10_000);
    assert_eq!(letters.reserved_balance(bob), before);
    assert_eq!(letters.deposit_of_letter(id), Some(before));
}

#[test]
fn buy_moves_price_ownership_and_deposit() {
    // The seller prices the letter at 500; a buyer with enough balance buys
    // at a 500 budget: ownership moves, 500 moves from buyer to seller, and
    // the accepted bid becomes the new asking price.
    let mut letters = Pallet::new(test_config());
    let seller = 2;
    let buyer = 3;
    letters.endow(seller, 10_000);
    letters.endow(buyer, 1_000);
    let id = letters
        .init_letter(seller, b"hello".to_vec(), b"bear".to_vec(), 7)
        .unwrap();
    assert!(letters.set_price(seller, id, 500).is_ok());

    assert!(letters.buy_letter(buyer, id, 500).is_ok());

    assert_eq!(letters.owner_of(id), Some(buyer));
    assert_eq!(letters.letter(id).unwrap().price, 500);
    assert_eq!(letters.free_balance(buyer), 1_000 - 500 - 95);
    assert_eq!(letters.reserved_balance(buyer), 95);
    assert_eq!(letters.free_balance(seller), 10_000 - 95 + 500 + 95);
    assert_eq!(letters.reserved_balance(seller), 0);
    assert_eq!(letters.owned_letter_count(seller), 0);
    assert_eq!(letters.owned_letter_count(buyer), 1);
    assert_eq!(
        letters.emitted(),
        &vec![
            Event::LetterInit(seller, id),
            Event::PriceSet(seller, id, 500),
            Event::Transferred(seller, buyer, id),
            Event::Bought(buyer, seller, id, 500),
        ],
    );
}

#[test]
fn unpriced_letter_is_not_for_sale() {
    // Buying a letter whose price is zero fails with NotForSale and changes
    // nothing.
    let mut letters = Pallet::new(test_config());
    letters.endow(1, 10_000);
    letters.endow(2, 10_000);
    let id = letters
        .init_letter(1, b"hello".to_vec(), b"bear".to_vec(), 7)
        .unwrap();

    assert_eq!(letters.buy_letter(2, id, 500), Err(Error::NotForSale));

    assert_eq!(letters.owner_of(id), Some(1));
    assert_eq!(letters.owned_letter_count(1), 1);
    assert_eq!(letters.owned_letter_count(2), 0);
    assert_eq!(letters.free_balance(2), 10_000);
    assert_eq!(letters.reserved_balance(1), 95);
    assert_eq!(letters.emitted(), &vec![Event::LetterInit(1, id)]);
}

#[test]
fn rejected_write_leaves_pages_and_deposit_alone() {
    // A non-owner's write fails with NotOwner; no page was ever written, so
    // reading page 0 fails with NonExistentPage, and the deposit is the
    // letter deposit alone. An oversize page by the owner is also refused
    // with page count and deposit unchanged.
    let mut letters = Pallet::new(test_config());
    letters.endow(1, 10_000);
    letters.endow(2, 10_000);
    let id = letters
        .init_letter(1, b"hello".to_vec(), b"bear".to_vec(), 7)
        .unwrap();

    assert_eq!(letters.write_page(2, id, b"mine now".to_vec()), Err(Error::NotOwner));
    assert_eq!(letters.read_page(id, 0), Err(Error::NonExistentPage));
    assert_eq!(letters.deposit_of_letter(id), Some(95));

    let oversize = vec![b'.'; 8193];
    assert_eq!(letters.write_page(1, id, oversize), Err(Error::PageLenOverflow));
    assert_eq!(letters.read_page(id, 0), Err(Error::NonExistentPage));
    assert_eq!(letters.deposit_of_letter(id), Some(95));
    assert_eq!(letters.reserved_balance(1), 95);
}

#[test]
fn write_page_rebonds_to_latest_page_cost() {
    // The deposit is recomputed wholesale on each write: the letter cost
    // plus the cost of the page just written, not a running total.
    let mut letters = Pallet::new(test_config());
    letters.endow(1, 10_000);
    let id = letters
        .init_letter(1, b"hello".to_vec(), b"bear".to_vec(), 7)
        .unwrap();

    assert!(letters.write_page(1, id, vec![b'x'; 100]).is_ok());
    assert_eq!(letters.deposit_of_letter(id), Some(95 + 10 + 100));
    assert_eq!(letters.reserved_balance(1), 95 + 10 + 100);

    assert!(letters.write_page(1, id, vec![b'y'; 3]).is_ok());
    assert_eq!(letters.deposit_of_letter(id), Some(95 + 10 + 3));
    assert_eq!(letters.reserved_balance(1), 95 + 10 + 3);
    assert_eq!(letters.free_balance(1), 10_000 - 95 - 10 - 3);
}

#[test]
fn swap_with_last_keeps_lists_gapless() {
    // Transferring a letter out of the middle of an owner's list moves the
    // list's last letter into the vacated position: no gaps, no reordering
    // of the global enumeration.
    let mut letters = Pallet::new(test_config());
    let alice = 1;
    let bob = 2;
    letters.endow(alice, 10_000);
    letters.endow(bob, 10_000);
    let x1 = letters.init_letter(alice, b"one".to_vec(), b"a".to_vec(), 1).unwrap();
    let x2 = letters.init_letter(alice, b"two".to_vec(), b"a".to_vec(), 2).unwrap();
    let x3 = letters.init_letter(alice, b"three".to_vec(), b"a".to_vec(), 3).unwrap();
    assert_ne!(x1, x2);
    assert_ne!(x1, x3);
    assert_ne!(x2, x3);
    assert_eq!(letters.owned_letter_count(alice), 3);

    assert!(letters.transfer(alice, bob, x2).is_ok());

    assert_eq!(letters.owned_letter_count(alice), 2);
    assert_eq!(letters.letter_of_owner_by_index((alice, 1)), Some(x1));
    assert_eq!(letters.letter_of_owner_by_index((alice, 2)), Some(x3));
    assert_eq!(letters.letter_of_owner_by_index((alice, 3)), None);
    assert_eq!(letters.letter_of_owner_by_index((bob, 1)), Some(x2));

    // The global enumeration still lists every mint in order.
    assert_eq!(letters.all_letters_count(), 3);
    assert_eq!(letters.letter_by_index(1), Some(x1));
    assert_eq!(letters.letter_by_index(2), Some(x2));
    assert_eq!(letters.letter_by_index(3), Some(x3));
}

#[test]
fn nonce_steps_once_per_mint() {
    let mut letters = Pallet::new(test_config());
    letters.endow(1, 10_000);
    assert_eq!(letters.get_nonce(), 0);
    assert!(letters.init_letter(1, b"one".to_vec(), b"a".to_vec(), 1).is_ok());
    assert_eq!(letters.get_nonce(), 1);
    assert!(letters.init_letter(1, b"two".to_vec(), b"a".to_vec(), 1).is_ok());
    assert_eq!(letters.get_nonce(), 2);
    let bad = letters.init_letter(1, vec![b'.'; 65], b"a".to_vec(), 1);
    assert_eq!(bad, Err(Error::TitleLenOverflow));
    assert_eq!(letters.get_nonce(), 2);
}
