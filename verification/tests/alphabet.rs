use std::collections::HashSet;

use enum_bitset::domains::Alphabet;
use enum_bitset::set::Bitset;

type AlphabetSet = Bitset<Alphabet>;

fn vowels() -> AlphabetSet {
    AlphabetSet::from_array([Alphabet::A, Alphabet::E, Alphabet::I, Alphabet::O, Alphabet::U])
}

#[test]
fn alphabet_default_is_empty() {
    let default = AlphabetSet::default();
    assert!(default.is_empty());
}

#[test]
fn alphabet_set() {
    let mut set = AlphabetSet::new();
    set.insert(Alphabet::A);

    assert!(set == Alphabet::A.into());
    assert!(set.len() == 1);
    assert!(set.contains(Alphabet::A));
    assert!(!set.contains(Alphabet::B));
}

#[test]
fn alphabet_mask() {
    assert!(AlphabetSet::mask() == 0b11111111111111111111111111);
}

#[test]
fn alphabet_iter_empty() {
    let set = AlphabetSet::new();

    assert!(set.iter().next().is_none());
}

#[test]
fn alphabet_iter_b() {
    let mut set = AlphabetSet::new();
    set.insert(Alphabet::B);

    let mut iter = set.iter();
    assert!(iter.next() == Some(Alphabet::B));
    assert!(iter.next().is_none());
}

#[test]
fn vowels_len() {
    assert!(vowels().len() == 5);
}

#[test]
fn vowels_iter() {
    let set = vowels();
    let mut iter = set.iter();
    assert!(iter.next() == Some(Alphabet::A));
    assert!(iter.next() == Some(Alphabet::E));
    assert!(iter.next() == Some(Alphabet::I));
    assert!(iter.next() == Some(Alphabet::O));
    assert!(iter.next() == Some(Alphabet::U));
    assert!(iter.next().is_none());
}

#[test]
fn vowels_debug() {
    let expected = "AlphabetSet(5){A, E, I, O, U}";
    assert!(vowels().render() == expected);
}

#[test]
fn vowels_collect_to_hash_set() {
    let hash_set: HashSet<Alphabet> = vowels().collect().into_iter().collect();
    assert!(hash_set.len() == 5);

    let expected = HashSet::from([Alphabet::A, Alphabet::E, Alphabet::I, Alphabet::O, Alphabet::U]);
    assert!(expected == hash_set);
}

#[test]
fn z() {
    let set = AlphabetSet::from([Alphabet::Z]);
    assert!(set.len() == 1);

    let mut iter = set.iter();
    assert!(iter.next() == Some(Alphabet::Z));
    assert!(iter.next().is_none());
}

#[test]
fn vowels_from_iter_of_refs() {
    let source = [&Alphabet::A, &Alphabet::E, &Alphabet::I, &Alphabet::O, &Alphabet::U];
    let mut set = AlphabetSet::empty();
    for letter in source {
        set.insert(*letter);
    }
    assert!(set.len() == 5);
    assert!(set.contains(Alphabet::A));
    assert!(set.contains(Alphabet::E));
    assert!(set.contains(Alphabet::I));
    assert!(set.contains(Alphabet::O));
    assert!(set.contains(Alphabet::U));
    assert!(!set.contains(Alphabet::B));
    assert!(set == vowels());
}
