use enum_bitset::codec::UnknownSymbol;
use enum_bitset::domain::Domain;
use enum_bitset::domains::{Digit, TreeVariants};
use enum_bitset::example::ProgrammerState;
use enum_bitset::repr::{width_allowed, width_for};
use enum_bitset::set::Bitset;

type DigitSet = Bitset<Digit>;

type TreeVariantsSet = Bitset<TreeVariants>;

type ProgrammerStateSet = Bitset<ProgrammerState>;

#[test]
fn mask_three_symbols() {
    assert_eq!(TreeVariantsSet::mask(), 0b111);
}

#[test]
fn mask_ten_symbols() {
    assert_eq!(DigitSet::mask(), 0b1111111111);
}

#[test]
fn lengths_agree_with_emptiness_and_fullness() {
    assert_eq!(DigitSet::empty().len(), 0);
    assert!(DigitSet::empty().is_empty());
    assert_eq!(DigitSet::all().len(), 10);
    assert!(DigitSet::all().is_all());
    let some = DigitSet::from([Digit::D3, Digit::D7]);
    assert_eq!(some.len(), 2);
    assert!(!some.is_empty());
    assert!(!some.is_all());
}

#[test]
fn insert_twice_is_insert_once() {
    let mut once = TreeVariantsSet::empty();
    once.insert(TreeVariants::B);
    let mut twice = TreeVariantsSet::empty();
    twice.insert(TreeVariants::B);
    twice.insert(TreeVariants::B);
    assert_eq!(once.len(), 1);
    assert!(once == twice);
}

#[test]
fn remove_absent_is_no_op() {
    let set = TreeVariantsSet::from([TreeVariants::A, TreeVariants::C]);
    let mut removed = set;
    removed.remove(TreeVariants::B);
    assert!(removed == set);
}

#[test]
fn repr_round_trip_all_valid_values() {
    let mut value: u8 = 0;
    while value < 8 {
        let set = TreeVariantsSet::from_repr(value).unwrap();
        assert_eq!(set.to_repr(), value);
        assert!(TreeVariantsSet::from_repr(set.to_repr()).unwrap() == set);
        value += 1;
    }
}

#[test]
fn repr_masked_and_discarded() {
    let masked = TreeVariantsSet::from_repr_masked(0b1101_0110);
    assert!(masked == TreeVariantsSet::from([TreeVariants::B, TreeVariants::C]));

    let (kept, stray) = TreeVariantsSet::from_repr_discarded(0b1101_0110);
    assert!(kept == TreeVariantsSet::from([TreeVariants::B, TreeVariants::C]));
    assert_eq!(stray, 0b1101_0000);

    let (kept, stray) = TreeVariantsSet::from_repr_discarded(0b101);
    assert!(kept == TreeVariantsSet::from([TreeVariants::A, TreeVariants::C]));
    assert_eq!(stray, 0);
}

#[test]
fn algebra_laws_on_samples() {
    let a = DigitSet::from([Digit::D1, Digit::D4, Digit::D9]);
    let b = DigitSet::from([Digit::D4, Digit::D5]);

    assert!(a.union(&b) == b.union(&a));
    assert!(a.intersection(&b) == b.intersection(&a));
    assert!(a.difference(&b).is_disjoint(&b));
    assert!(a.complement().complement() == a);
    assert!(a.union(&a.complement()) == DigitSet::all());
    assert!(a.intersection(&a.complement()) == DigitSet::empty());
}

#[test]
fn iteration_order_ignores_insertion_order() {
    let mut set = DigitSet::empty();
    set.insert(Digit::D8);
    set.insert(Digit::D1);
    set.insert(Digit::D5);
    set.insert(Digit::D0);
    assert_eq!(
        set.collect(),
        vec![Digit::D0, Digit::D1, Digit::D5, Digit::D8]
    );
}

#[test]
fn iterator_size_hint_and_count() {
    let set = DigitSet::from([Digit::D2, Digit::D6, Digit::D7]);
    let mut iter = set.iter();
    assert_eq!(iter.size_hint(), (3, Some(3)));
    iter.next();
    assert_eq!(iter.size_hint(), (2, Some(2)));
    assert_eq!(iter.count(), 2);
    assert_eq!(set.iter().count(), 3);
}

#[test]
fn name_list_round_trip_any_order() {
    let set = TreeVariantsSet::from([TreeVariants::A]);
    let names = set.to_name_list();
    assert_eq!(names, vec![String::from("A")]);
    assert!(TreeVariantsSet::from_name_list(&names).unwrap() == set);

    let shuffled = vec![
        String::from("C"),
        String::from("A"),
        String::from("A"),
        String::from("C"),
    ];
    let decoded = TreeVariantsSet::from_name_list(&shuffled).unwrap();
    assert!(decoded == TreeVariantsSet::from([TreeVariants::A, TreeVariants::C]));
}

#[test]
fn name_list_unknown_symbol_fails() {
    let names = vec![String::from("A"), String::from("Q"), String::from("B")];
    let err = match TreeVariantsSet::from_name_list(&names) {
        Err(e) => e,
        Ok(_) => panic!("an unknown identifier must fail the decode"),
    };
    assert_eq!(err, UnknownSymbol { position: 1 });
}

#[test]
fn width_selector_picks_narrowest() {
    assert_eq!(width_for(0), None);
    assert_eq!(width_for(1), Some(8));
    assert_eq!(width_for(8), Some(8));
    assert_eq!(width_for(9), Some(16));
    assert_eq!(width_for(17), Some(32));
    assert_eq!(width_for(33), Some(64));
    assert_eq!(width_for(65), Some(128));
    assert_eq!(width_for(128), Some(128));
    assert_eq!(width_for(129), None);
}

#[test]
fn width_override_checked() {
    assert!(width_allowed(3, 16));
    assert!(width_allowed(3, 8));
    assert!(!width_allowed(9, 8));
    assert!(!width_allowed(3, 12));
    assert!(!width_allowed(0, 8));
    assert!(width_allowed(128, 128));
}

#[test]
fn programmer_state_set_works_end_to_end() {
    let mut set = ProgrammerStateSet::empty();
    set.insert(ProgrammerState::CompilerFight);
    set.insert(ProgrammerState::CoffeeAcquired);
    assert_eq!(set.len(), 2);
    assert!(set.contains(ProgrammerState::CoffeeAcquired));
    assert!(!set.contains(ProgrammerState::Sleeping));
    assert_eq!(
        set.render(),
        "ProgrammerStateSet(2){CoffeeAcquired, CompilerFight}"
    );
    let names = set.to_name_list();
    assert_eq!(
        names,
        vec![String::from("CoffeeAcquired"), String::from("CompilerFight")]
    );
    assert!(ProgrammerStateSet::from_name_list(&names).unwrap() == set);
    assert_eq!(set.to_repr(), 0b110);
    assert_eq!(ProgrammerStateSet::mask(), 0b1_1111_1111);
    assert_eq!(
        ProgrammerStateSet::all().collect().len(),
        ProgrammerState::count_exec()
    );
}

#[test]
fn variants_lists_the_domain_in_order() {
    assert_eq!(
        TreeVariantsSet::variants(),
        vec![TreeVariants::A, TreeVariants::B, TreeVariants::C]
    );
}

#[test]
fn subset_superset_disjoint_complementary() {
    let low = DigitSet::from([Digit::D0, Digit::D1]);
    let high = low.complement();
    assert!(low.is_complementary(&high));
    assert!(low.is_subset_of(&DigitSet::all()));
    assert!(DigitSet::all().is_superset_of(&high));
    assert!(low.is_disjoint(&high));
    assert!(!low.is_complementary(&DigitSet::all()));
}

#[test]
fn extend_folds_symbols_in() {
    let mut set = DigitSet::from([Digit::D1]);
    set.extend_from_slice(&[Digit::D4, Digit::D1, Digit::D9]);
    assert!(set == DigitSet::from([Digit::D1, Digit::D4, Digit::D9]));
    set.extend_from_slice(&[]);
    assert!(set == DigitSet::from([Digit::D1, Digit::D4, Digit::D9]));
}
