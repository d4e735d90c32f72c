use pallet_letters::{Config, Error, Pallet};

fn test_config() -> Config {
    Config {
        max_title_len: 64,
        max_author_len: 64,
        max_page_len: 8192,
        max_page_num: 64,
        letter_deposit_base: 50,
        letter_deposit_factor: 5,
        page_deposit_base: 10,
        page_deposit_factor: 1,
        existential_deposit: 500,
    }
}

fn new_test_ext() -> Pallet {
    let mut store = Pallet::new(test_config());
    store.endow(1, 10_000);
    store.endow(2, 10_000);
    store
}

#[test]
fn init_letter_works() {
    let mut letters = new_test_ext();
    assert_eq!(letters.all_letters_count(), 0);

    let title = "𝔥𝔢𝔩𝔩𝔬 𝔴𝔬𝔯𝔩𝔡".as_bytes().to_vec();
    let author = "𝖇𝖊𝖆𝖗".as_bytes().to_vec();

    assert!(letters.init_letter(1, title.clone(), author.clone(), 0).is_ok());

    assert_eq!(letters.all_letters_count(), 1);

    let letter_id = letters.letter_by_index(1).unwrap();

    assert_eq!(letters.letter(letter_id).unwrap().title, title);
    assert_eq!(letters.letter(letter_id).unwrap().author, author);

    let title = "hello world".as_bytes().to_vec();
    let author = "bear".as_bytes().to_vec();

    assert!(letters.init_letter(1, title.clone(), author.clone(), 1).is_ok());

    assert_eq!(letters.all_letters_count(), 2);

    let letter_id = letters.letter_by_index(2).unwrap();

    assert_eq!(letters.letter(letter_id).unwrap().title, title);
    assert_eq!(letters.letter(letter_id).unwrap().author, author);
}

#[test]
fn read_write_page_works() {
    let mut letters = new_test_ext();
    let title = "𝔥𝔢𝔩𝔩𝔬 𝔴𝔬𝔯𝔩𝔡".as_bytes().to_vec();
    let author = "𝖇𝖊𝖆𝖗".as_bytes().to_vec();

    assert!(letters.init_letter(1, title, author, 0).is_ok());

    let letter_id = letters.letter_by_index(1).unwrap();
    let page = "𝔯𝔬𝔰𝔢𝔰 𝔞𝔯𝔢 𝔯𝔢𝔡 🌹".as_bytes().to_vec();

    assert!(letters.write_page(1, letter_id, page.clone()).is_ok());
    assert_eq!(letters.read_page(letter_id, 0).unwrap(), &page);

    let page = "𝔳𝔦𝔬𝔩𝔢𝔱𝔰 𝔞𝔯𝔢 𝔟𝔩𝔲𝔢 ❃".as_bytes().to_vec();
    assert!(letters.write_page(1, letter_id, page.clone()).is_ok());
    assert_eq!(letters.read_page(letter_id, 1).unwrap(), &page);
}

#[test]
fn transfer_works() {
    let mut letters = new_test_ext();
    let title = "𝔥𝔢𝔩𝔩𝔬 𝔴𝔬𝔯𝔩𝔡".as_bytes().to_vec();
    let author = "𝖇𝖊𝖆𝖗".as_bytes().to_vec();

    let alice = 1;
    let bob = 2;

    assert!(letters.init_letter(alice, title, author, 0).is_ok());

    let letter_id = letters.letter_by_index(1).unwrap();
    let page = "𝔯𝔬𝔰𝔢𝔰 𝔞𝔯𝔢 𝔯𝔢𝔡 🌹".as_bytes().to_vec();

    assert!(letters.write_page(alice, letter_id, page).is_ok());

    assert_eq!(letters.letter_of_owner_by_index((alice, 1)), Some(letter_id));
    assert_eq!(letters.owner_of(letter_id), Some(alice));
    assert_eq!(letters.owned_letter_count(alice), 1);
    assert_eq!(letters.owned_letter_count(bob), 0);

    assert!(letters.transfer(alice, bob, letter_id).is_ok());

    assert_eq!(letters.letter_of_owner_by_index((bob, 1)), Some(letter_id));
    assert_eq!(letters.owner_of(letter_id), Some(bob));
    assert_eq!(letters.owned_letter_count(bob), 1);
    assert_eq!(letters.owned_letter_count(alice), 0);

    let page = "𝔳𝔦𝔬𝔩𝔢𝔱𝔰 𝔞𝔯𝔢 𝔟𝔩𝔲𝔢 ❃".as_bytes().to_vec();
    assert!(letters.write_page(bob, letter_id, page.clone()).is_ok());
    assert_eq!(letters.read_page(letter_id, 1).unwrap(), &page);
}

#[test]
fn write_page_wrong_owner_error() {
    let mut letters = new_test_ext();
    let title = "𝔥𝔢𝔩𝔩𝔬 𝔴𝔬𝔯𝔩𝔡".as_bytes().to_vec();
    let author = "𝖇𝖊𝖆𝖗".as_bytes().to_vec();

    assert!(letters.init_letter(1, title, author, 0).is_ok());

    let letter_id = letters.letter_by_index(1).unwrap();
    let page = "𝔯𝔬𝔰𝔢𝔰 𝔞𝔯𝔢 𝔯𝔢𝔡 🌹".as_bytes().to_vec();

    assert_eq!(letters.write_page(2, letter_id, page.clone()), Err(Error::NotOwner));
    assert_eq!(letters.read_page(letter_id, 0), Err(Error::NonExistentPage));
}

#[test]
fn non_existent_page_error() {
    let mut letters = new_test_ext();
    let title = "𝔥𝔢𝔩𝔩𝔬 𝔴𝔬𝔯𝔩𝔡".as_bytes().to_vec();
    let author = "𝖇𝖊𝖆𝖗".as_bytes().to_vec();

    assert!(letters.init_letter(1, title, author, 0).is_ok());
    let letter_id = letters.letter_by_index(1).unwrap();
    let page = "𝔯𝔬𝔰𝔢𝔰 𝔞𝔯𝔢 𝔯𝔢𝔡 🌹".as_bytes().to_vec();

    assert!(letters.write_page(1, letter_id, page.clone()).is_ok());
    assert_eq!(letters.read_page(letter_id, 0).unwrap().clone(), page);

    assert_eq!(letters.read_page(letter_id, 1), Err(Error::NonExistentPage));

    let page = "𝔳𝔦𝔬𝔩𝔢𝔱𝔰 𝔞𝔯𝔢 𝔟𝔩𝔲𝔢 ❃".as_bytes().to_vec();
    assert!(letters.write_page(1, letter_id, page.clone()).is_ok());
    assert_eq!(letters.read_page(letter_id, 1).unwrap(), &page);
}

#[test]
fn buy_works() {
    let mut letters = new_test_ext();
    let title = "𝔥𝔢𝔩𝔩𝔬 𝔴𝔬𝔯𝔩𝔡".as_bytes().to_vec();
    let author = "𝖇𝖊𝖆𝖗".as_bytes().to_vec();

    let alice = 1;
    let bob = 2;

    assert!(letters.init_letter(alice, title, author, 0).is_ok());
    let letter_id = letters.letter_by_index(1).unwrap();
    assert!(letters.set_price(alice, letter_id, 500).is_ok());

    assert!(letters.buy_letter(bob, letter_id, 500).is_ok());
}
