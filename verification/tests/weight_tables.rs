use pallet_letters::weights::{DbWeight, SubstrateWeight, WeightInfo};

fn table() -> SubstrateWeight {
    SubstrateWeight { db: DbWeight { read: 25_000_000, write: 100_000_000 } }
}

#[test]
fn measured_weights_add_up() {
    let w = table();
    assert_eq!(w.init_letter(10, 10), 68_547_000 + 4 * 25_000_000 + 9 * 100_000_000);
    assert_eq!(w.write_page(100), 60_317_000 + 100_000 + 2 * 25_000_000 + 100_000_000);
    assert_eq!(w.set_price(), 29_718_000 + 2 * 25_000_000 + 100_000_000);
    assert_eq!(w.transfer(), 87_866_000 + 8 * 25_000_000 + 10 * 100_000_000);
    assert_eq!(w.buy_letter(), 114_926_000 + 8 * 25_000_000 + 11 * 100_000_000);
}

#[test]
fn weights_saturate_instead_of_wrapping() {
    let w = SubstrateWeight { db: DbWeight { read: u64::MAX, write: u64::MAX } };
    assert_eq!(w.init_letter(0, 0), u64::MAX);
    assert_eq!(w.transfer(), u64::MAX);
}
