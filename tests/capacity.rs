use sn_section::capacity::{Capacity, AdultLevel, MIN_LEVEL_WHEN_FULL};
use sn_section::name::Name;
use sn_section::prefix::Prefix;

fn n(x: u128) -> Name {
    Name::new(x, 0)
}

#[test]
fn capacity_level_only_goes_up() {
    let mut c = Capacity::new();
    let a = n(1);
    assert!(c.set_adult_level(a, 3));
    assert!(c.set_adult_level(a, 7));
    assert!(!c.set_adult_level(a, 5));
    assert_eq!(c.level(&a), Some(7));
}

#[test]
fn capacity_full_and_average() {
    let mut c = Capacity::new();
    c.set_adult_levels(vec![
        AdultLevel { name: n(1), level: 9 },
        AdultLevel { name: n(2), level: 2 },
        AdultLevel { name: n(3), level: 10 },
    ]);
    assert!(c.is_full(&n(1)));
    assert!(!c.is_full(&n(2)));
    assert!(!c.is_full(&n(4)));
    assert_eq!(c.avg_usage(), 7);
    let mut full = c.full_adults();
    full.sort_by_key(|x| x.hi);
    assert_eq!(full, vec![n(1), n(3)]);
    assert_eq!(MIN_LEVEL_WHEN_FULL, 9);
    assert_eq!(Capacity::new().avg_usage(), 0);
}

#[test]
fn capacity_matching_and_retain() {
    let mut c = Capacity::new();
    let high = Name::new(1u128 << 127, 0);
    c.set_adult_level(n(1), 4);
    c.set_adult_level(high, 6);
    let zero = Prefix::from_bits(vec![false]).unwrap();
    let m = c.levels_matching(&zero);
    assert_eq!(m, vec![AdultLevel { name: n(1), level: 4 }]);
    c.retain_members_only(&vec![high]);
    assert_eq!(c.level(&n(1)), None);
    assert_eq!(c.level(&high), Some(6));
    assert_eq!(c.levels().len(), 1);
}
