use pallet_letters::{Config, Error, Letter, Pallet};

fn test_config() -> Config {
    Config {
        max_title_len: 64,
        max_author_len: 64,
        max_page_len: 8192,
        max_page_num: 64,
        letter_deposit_base: 50,
        letter_deposit_factor: 5,
        page_deposit_base: 10,
        page_deposit_factor: 1,
        existential_deposit: 500,
    }
}

fn minted(letters: &mut Pallet, who: u64) -> u64 {
    letters
        .init_letter(who, b"hello".to_vec(), b"bear".to_vec(), 7)
        .unwrap()
}

#[test]
fn oversize_title_and_author_are_refused() {
    let mut letters = Pallet::new(test_config());
    letters.endow(1, 10_000);
    assert_eq!(
        letters.init_letter(1, vec![b'.'; 65], b"bear".to_vec(), 7),
        Err(Error::TitleLenOverflow),
    );
    assert_eq!(
        letters.init_letter(1, b"hello".to_vec(), vec![b'.'; 65], 7),
        Err(Error::AuthorLenOverflow),
    );
    assert_eq!(letters.all_letters_count(), 0);
    assert_eq!(letters.reserved_balance(1), 0);
}

#[test]
fn too_many_pages_are_refused() {
    let mut letters = Pallet::new(test_config());
    letters.endow(1, 10_000);
    let id = minted(&mut letters, 1);
    for _ in 0..64 {
        assert!(letters.write_page(1, id, b"p".to_vec()).is_ok());
    }
    assert_eq!(letters.write_page(1, id, b"p".to_vec()), Err(Error::PageCountOverflow));
    assert_eq!(letters.read_page(id, 63).unwrap(), &b"p".to_vec());
    assert_eq!(letters.read_page(id, 64), Err(Error::NonExistentPage));
}

#[test]
fn missing_letters_are_reported() {
    let mut letters = Pallet::new(test_config());
    letters.endow(1, 10_000);
    let id = minted(&mut letters, 1);
    let bogus = id.wrapping_add(1);
    assert_eq!(letters.read_page(bogus, 0), Err(Error::NonExistentLetter));
    assert_eq!(letters.set_price(1, bogus, 5), Err(Error::NonExistentLetter));
    assert_eq!(letters.transfer(1, 2, bogus), Err(Error::NonExistentLetter));
    assert_eq!(letters.buy_letter(2, bogus, 5), Err(Error::NonExistentLetter));
    assert_eq!(letters.write_page(1, bogus, b"p".to_vec()), Err(Error::NonExistentLetter));
    assert_eq!(letters.owner_of(bogus), None);
    assert!(letters.letter(bogus).is_none());
    assert_eq!(letters.deposit_of_letter(bogus), None);
}

#[test]
fn strangers_cannot_price_or_take() {
    let mut letters = Pallet::new(test_config());
    letters.endow(1, 10_000);
    letters.endow(2, 10_000);
    let id = minted(&mut letters, 1);
    assert_eq!(letters.set_price(2, id, 5), Err(Error::NotOwner));
    assert_eq!(letters.transfer(2, 2, id), Err(Error::NotOwner));
    assert_eq!(letters.owner_of(id), Some(1));
}

#[test]
fn owners_cannot_buy_their_own_letter() {
    let mut letters = Pallet::new(test_config());
    letters.endow(1, 10_000);
    let id = minted(&mut letters, 1);
    assert!(letters.set_price(1, id, 500).is_ok());
    assert_eq!(letters.buy_letter(1, id, 500), Err(Error::SelfTrade));
}

#[test]
fn buying_over_budget_is_refused() {
    let mut letters = Pallet::new(test_config());
    letters.endow(1, 10_000);
    letters.endow(2, 10_000);
    let id = minted(&mut letters, 1);
    assert!(letters.set_price(1, id, 500).is_ok());
    assert_eq!(letters.buy_letter(2, id, 499), Err(Error::OverBudget));
    assert_eq!(letters.owner_of(id), Some(1));
}

#[test]
fn poor_minters_and_buyers_are_refused() {
    let mut letters = Pallet::new(test_config());
    letters.endow(1, 10);
    assert_eq!(
        letters.init_letter(1, b"hello".to_vec(), b"bear".to_vec(), 7),
        Err(Error::InsufficientDeposit),
    );

    letters.endow(1, 10_000);
    letters.endow(2, 400);
    let id = minted(&mut letters, 1);
    assert!(letters.set_price(1, id, 300).is_ok());
    // The buyer could pay, but would fall under the existential deposit.
    assert_eq!(letters.buy_letter(2, id, 300), Err(Error::InsufficientDeposit));
    // A transfer to an account that cannot afford the deposit also fails.
    letters.endow(3, 10);
    assert_eq!(letters.transfer(1, 3, id), Err(Error::InsufficientDeposit));
    assert_eq!(letters.owner_of(id), Some(1));
}

#[test]
fn reminting_an_id_is_refused() {
    let mut letters = Pallet::new(test_config());
    letters.endow(1, 10_000);
    let first = Letter::new(42, b"one".to_vec(), b"a".to_vec(), 0);
    assert!(letters.mint_letter(1, first, 0).is_ok());
    let second = Letter::new(42, b"two".to_vec(), b"b".to_vec(), 0);
    assert_eq!(letters.mint_letter(1, second, 0), Err(Error::AlreadyMinted));
    assert_eq!(letters.all_letters_count(), 1);
}

#[test]
fn amount_overflow_is_reported() {
    // A seller whose free balance cannot take the price.
    let mut letters = Pallet::new(test_config());
    letters.endow(1, 10_000);
    letters.endow(2, 10_000);
    let id = minted(&mut letters, 1);
    assert!(letters.set_price(1, id, 500).is_ok());
    letters.endow(1, u64::MAX);
    assert_eq!(letters.buy_letter(2, id, 500), Err(Error::AmountOverflow));

    // A deposit formula that cannot fit in an amount.
    let mut greedy = Pallet::new(Config {
        letter_deposit_base: u64::MAX,
        letter_deposit_factor: u64::MAX,
        ..test_config()
    });
    greedy.endow(1, u64::MAX);
    assert_eq!(
        greedy.init_letter(1, b"hello".to_vec(), b"bear".to_vec(), 7),
        Err(Error::AmountOverflow),
    );
}
